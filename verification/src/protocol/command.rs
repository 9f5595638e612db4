//! Commands: how a request line is read, what it does to the store, and
//! what it answers.
//!
//! A request is one line of words. The first word names the command,
//! whatever its case. Every command runs at one instant `now` against a
//! store that the caller holds exclusively, and answers one line, or, for
//! a key listing, one line per key.

use crate::protocol::number::{
    decimal, integer_text, parse_i64, parse_u64, read_i64, read_u64, write_decimal, write_integer,
};
use crate::storage::db::{Entry, EntryView, Store, StoreView, NANOS_PER_SEC};
use crate::storage::expiry::cleanup_all_expired;
use crate::text::{same_text, split_words, texts, to_upper, upper, words};
use vstd::prelude::*;
use vstd::string::StringExecFns;

verus! {

/// A request that was read successfully.
#[derive(Debug)]
pub enum Command {
    Get { key: String },
    /// `SET`: stores a value, with or without a time to live.
    Put { key: String, value: String, ttl_secs: Option<u64> },
    Expire { key: String, seconds: u64 },
    Ttl { key: String },
    Incr { key: String },
    Del { key: String },
    Ping,
    Keys,
}

/// The mathematical content of a [`Command`].
pub enum CommandView {
    Get { key: Seq<char> },
    Put { key: Seq<char>, value: Seq<char>, ttl_secs: Option<u64> },
    Expire { key: Seq<char>, seconds: u64 },
    Ttl { key: Seq<char> },
    Incr { key: Seq<char> },
    Del { key: Seq<char> },
    Ping,
    Keys,
}

impl View for Command {
    type V = CommandView;

    open spec fn view(&self) -> CommandView {
        match self {
            Command::Get { key } => CommandView::Get { key: key@ },
            Command::Put { key, value, ttl_secs } => CommandView::Put {
                key: key@,
                value: value@,
                ttl_secs: *ttl_secs,
            },
            Command::Expire { key, seconds } => CommandView::Expire { key: key@, seconds: *seconds },
            Command::Ttl { key } => CommandView::Ttl { key: key@ },
            Command::Incr { key } => CommandView::Incr { key: key@ },
            Command::Del { key } => CommandView::Del { key: key@ },
            Command::Ping => CommandView::Ping,
            Command::Keys => CommandView::Keys,
        }
    }
}

/// What can be wrong with a request. None of these ends a connection:
/// each is answered with an `ERROR:` line.
#[derive(Debug)]
pub enum ProtocolError {
    EmptyCommand,
    GetRequiresKey,
    SetRequiresKeyAndValue,
    InvalidExValue,
    ExRequiresSeconds,
    ExpireRequiresKeyAndSeconds,
    InvalidSeconds,
    TtlRequiresKey,
    IncrRequiresKey,
    DelRequiresKey,
    NotAnInteger,
    UnknownCommand { name: String },
}

/// The mathematical content of a [`ProtocolError`].
pub enum ProtocolErrorView {
    EmptyCommand,
    GetRequiresKey,
    SetRequiresKeyAndValue,
    InvalidExValue,
    ExRequiresSeconds,
    ExpireRequiresKeyAndSeconds,
    InvalidSeconds,
    TtlRequiresKey,
    IncrRequiresKey,
    DelRequiresKey,
    NotAnInteger,
    UnknownCommand { name: Seq<char> },
}

impl View for ProtocolError {
    type V = ProtocolErrorView;

    open spec fn view(&self) -> ProtocolErrorView {
        match self {
            ProtocolError::EmptyCommand => ProtocolErrorView::EmptyCommand,
            ProtocolError::GetRequiresKey => ProtocolErrorView::GetRequiresKey,
            ProtocolError::SetRequiresKeyAndValue => ProtocolErrorView::SetRequiresKeyAndValue,
            ProtocolError::InvalidExValue => ProtocolErrorView::InvalidExValue,
            ProtocolError::ExRequiresSeconds => ProtocolErrorView::ExRequiresSeconds,
            ProtocolError::ExpireRequiresKeyAndSeconds => ProtocolErrorView::ExpireRequiresKeyAndSeconds,
            ProtocolError::InvalidSeconds => ProtocolErrorView::InvalidSeconds,
            ProtocolError::TtlRequiresKey => ProtocolErrorView::TtlRequiresKey,
            ProtocolError::IncrRequiresKey => ProtocolErrorView::IncrRequiresKey,
            ProtocolError::DelRequiresKey => ProtocolErrorView::DelRequiresKey,
            ProtocolError::NotAnInteger => ProtocolErrorView::NotAnInteger,
            ProtocolError::UnknownCommand { name } => ProtocolErrorView::UnknownCommand {
                name: name@,
            },
        }
    }
}

impl ProtocolErrorView {
    /// The response line for this error.
    pub open spec fn message(self) -> Seq<char> {
        match self {
            ProtocolErrorView::EmptyCommand => "ERROR: Empty command\n"@,
            ProtocolErrorView::GetRequiresKey => "ERROR: GET requires a key\n"@,
            ProtocolErrorView::SetRequiresKeyAndValue => "ERROR: SET requires a key and value\n"@,
            ProtocolErrorView::InvalidExValue => "ERROR: Invalid EX value\n"@,
            ProtocolErrorView::ExRequiresSeconds => "ERROR: EX requires seconds argument\n"@,
            ProtocolErrorView::ExpireRequiresKeyAndSeconds => "ERROR: EXPIRE requires a key and seconds\n"@,
            ProtocolErrorView::InvalidSeconds => "ERROR: Invalid seconds\n"@,
            ProtocolErrorView::TtlRequiresKey => "ERROR: TTL requires a key\n"@,
            ProtocolErrorView::IncrRequiresKey => "ERROR: INCR requires a key\n"@,
            ProtocolErrorView::DelRequiresKey => "ERROR: DEL requires a key\n"@,
            ProtocolErrorView::NotAnInteger => "ERROR: value is not an integer\n"@,
            ProtocolErrorView::UnknownCommand { name } => "ERROR: Unknown command '"@ + name
                + "'\n"@,
        }
    }
}

impl ProtocolError {
    /// The response line for this error.
    pub fn message(&self) -> (text: String)
        ensures
            text@ == self@.message(),
    {
        match self {
            ProtocolError::EmptyCommand => String::from_str("ERROR: Empty command\n"),
            ProtocolError::GetRequiresKey => String::from_str("ERROR: GET requires a key\n"),
            ProtocolError::SetRequiresKeyAndValue => String::from_str(
                "ERROR: SET requires a key and value\n",
            ),
            ProtocolError::InvalidExValue => String::from_str("ERROR: Invalid EX value\n"),
            ProtocolError::ExRequiresSeconds => String::from_str(
                "ERROR: EX requires seconds argument\n",
            ),
            ProtocolError::ExpireRequiresKeyAndSeconds => String::from_str(
                "ERROR: EXPIRE requires a key and seconds\n",
            ),
            ProtocolError::InvalidSeconds => String::from_str("ERROR: Invalid seconds\n"),
            ProtocolError::TtlRequiresKey => String::from_str("ERROR: TTL requires a key\n"),
            ProtocolError::IncrRequiresKey => String::from_str("ERROR: INCR requires a key\n"),
            ProtocolError::DelRequiresKey => String::from_str("ERROR: DEL requires a key\n"),
            ProtocolError::NotAnInteger => String::from_str("ERROR: value is not an integer\n"),
            ProtocolError::UnknownCommand { name } => {
                let mut text = String::from_str("ERROR: Unknown command '");
                text.append(name.as_str());
                text.append("'\n");
                text
            },
        }
    }
}

/// Whether a word is the option `EX`, in either case of each letter.
pub open spec fn is_ex(word: Seq<char>) -> bool {
    &&& word.len() == 2
    &&& (word[0] == 'E' || word[0] == 'e')
    &&& (word[1] == 'X' || word[1] == 'x')
}

/// The position of the first `EX` at or after `from`, or the number of
/// words if there is none.
pub open spec fn find_ex(parts: Seq<Seq<char>>, from: int) -> int
    decreases parts.len() - from,
{
    if from >= parts.len() {
        parts.len() as int
    } else if is_ex(parts[from]) {
        from
    } else {
        find_ex(parts, from + 1)
    }
}

/// Words joined by single spaces.
pub open spec fn join(parts: Seq<Seq<char>>) -> Seq<char>
    decreases parts.len(),
{
    if parts.len() == 0 {
        Seq::empty()
    } else if parts.len() == 1 {
        parts[0]
    } else {
        join(parts.drop_last()) + seq![' '] + parts.last()
    }
}

/// How a `SET` request is read. The value is every word after the key,
/// up to the first `EX` that stands after the value's first word. Such an
/// `EX` must be followed by a number of seconds; words after that number
/// are ignored.
pub open spec fn parse_set(parts: Seq<Seq<char>>) -> Result<CommandView, ProtocolErrorView> {
    if parts.len() < 3 {
        Err(ProtocolErrorView::SetRequiresKeyAndValue)
    } else {
        let ex = find_ex(parts, 3);
        if ex >= parts.len() {
            Ok(
                CommandView::Put {
                    key: parts[1],
                    value: join(parts.subrange(2, parts.len() as int)),
                    ttl_secs: None,
                },
            )
        } else if ex + 1 >= parts.len() {
            Err(ProtocolErrorView::ExRequiresSeconds)
        } else {
            match parse_u64(parts[ex + 1]) {
                Some(seconds) => Ok(
                    CommandView::Put {
                        key: parts[1],
                        value: join(parts.subrange(2, ex)),
                        ttl_secs: Some(seconds),
                    },
                ),
                None => Err(ProtocolErrorView::InvalidExValue),
            }
        }
    }
}

/// How a request is read, given its words and the uppercase form of the
/// first of them. Words beyond those that a command needs are ignored.
pub open spec fn parse(name: Seq<char>, parts: Seq<Seq<char>>) -> Result<
    CommandView,
    ProtocolErrorView,
> {
    if parts.len() == 0 {
        Err(ProtocolErrorView::EmptyCommand)
    } else if name == "GET"@ {
        if parts.len() < 2 {
            Err(ProtocolErrorView::GetRequiresKey)
        } else {
            Ok(CommandView::Get { key: parts[1] })
        }
    } else if name == "SET"@ {
        parse_set(parts)
    } else if name == "EXPIRE"@ {
        if parts.len() < 3 {
            Err(ProtocolErrorView::ExpireRequiresKeyAndSeconds)
        } else {
            match parse_u64(parts[2]) {
                Some(seconds) => Ok(CommandView::Expire { key: parts[1], seconds }),
                None => Err(ProtocolErrorView::InvalidSeconds),
            }
        }
    } else if name == "TTL"@ {
        if parts.len() < 2 {
            Err(ProtocolErrorView::TtlRequiresKey)
        } else {
            Ok(CommandView::Ttl { key: parts[1] })
        }
    } else if name == "INCR"@ {
        if parts.len() < 2 {
            Err(ProtocolErrorView::IncrRequiresKey)
        } else {
            Ok(CommandView::Incr { key: parts[1] })
        }
    } else if name == "DEL"@ {
        if parts.len() < 2 {
            Err(ProtocolErrorView::DelRequiresKey)
        } else {
            Ok(CommandView::Del { key: parts[1] })
        }
    } else if name == "PING"@ {
        Ok(CommandView::Ping)
    } else if name == "KEYS"@ {
        Ok(CommandView::Keys)
    } else {
        Err(ProtocolErrorView::UnknownCommand { name: parts[0] })
    }
}

/// What a parser may hand back for a given expectation.
pub open spec fn matches_parse(
    result: Result<Command, ProtocolError>,
    expected: Result<CommandView, ProtocolErrorView>,
) -> bool {
    match result {
        Ok(command) => expected == Ok::<CommandView, ProtocolErrorView>(command@),
        Err(error) => expected == Err::<CommandView, ProtocolErrorView>(error@),
    }
}

/// Whether `word` is the option `EX`.
fn is_ex_word(word: &str) -> (ex: bool)
    ensures
        ex == is_ex(word@),
{
    let mut chars = word.chars();
    let first = chars.next();
    let second = chars.next();
    let third = chars.next();
    match (first, second, third) {
        (Some(a), Some(b), None) => {
            assert(word@.skip(0).drop_first().drop_first() =~= word@.skip(2));
            assert(word@.len() == 2);
            (a == 'E' || a == 'e') && (b == 'X' || b == 'x')
        },
        (None, _, _) => {
            assert(word@.len() == 0);
            false
        },
        (Some(_), None, _) => {
            assert(word@.len() == 1);
            false
        },
        (Some(_), Some(_), Some(_)) => {
            assert(word@.len() >= 3);
            false
        },
    }
}

/// Joins the words `parts[from..to]` by single spaces.
fn join_words(parts: &Vec<String>, from: usize, to: usize) -> (joined: String)
    requires
        from <= to <= parts@.len(),
    ensures
        joined@ == join(texts(parts@).subrange(from as int, to as int)),
{
    let ghost all = texts(parts@);
    let mut joined = String::new();
    let mut i: usize = from;
    assert(all.subrange(from as int, from as int) =~= Seq::<Seq<char>>::empty());
    while i < to
        invariant
            from <= i <= to <= parts@.len(),
            all == texts(parts@),
            joined@ == join(all.subrange(from as int, i as int)),
        decreases to - i,
    {
        proof {
            let next = all.subrange(from as int, i + 1);
            assert(next.drop_last() =~= all.subrange(from as int, i as int));
            assert(next.last() == parts@[i as int]@);
            if i == from {
                assert(joined@ + parts@[i as int]@ =~= parts@[i as int]@);
            }
        }
        if i > from {
            joined.append(" ");
            proof {
                reveal_strlit(" ");
                assert(" "@ =~= seq![' ']);
            }
        }
        joined.append(parts[i].as_str());
        i = i + 1;
    }
    joined
}

/// Reads a `SET` request.
fn parse_set_command(parts: &Vec<String>) -> (result: Result<Command, ProtocolError>)
    ensures
        matches_parse(result, parse_set(texts(parts@))),
{
    let ghost all = texts(parts@);
    if parts.len() < 3 {
        return Err(ProtocolError::SetRequiresKeyAndValue);
    }
    let mut ex: usize = 3;
    while ex < parts.len() && !is_ex_word(parts[ex].as_str())
        invariant
            3 <= ex <= parts@.len(),
            all == texts(parts@),
            find_ex(all, 3) == find_ex(all, ex as int),
        decreases parts@.len() - ex,
    {
        ex = ex + 1;
    }
    let key = parts[1].clone();
    if ex >= parts.len() {
        let value = join_words(parts, 2, parts.len());
        Ok(Command::Put { key, value, ttl_secs: None })
    } else if ex + 1 >= parts.len() {
        Err(ProtocolError::ExRequiresSeconds)
    } else {
        match read_u64(parts[ex + 1].as_str()) {
            Some(seconds) => {
                let value = join_words(parts, 2, ex);
                Ok(Command::Put { key, value, ttl_secs: Some(seconds) })
            },
            None => Err(ProtocolError::InvalidExValue),
        }
    }
}

/// Reads a request from its words and the uppercase form of the first of
/// them.
pub fn parse_command(name: &str, parts: &Vec<String>) -> (result: Result<Command, ProtocolError>)
    ensures
        matches_parse(result, parse(name@, texts(parts@))),
{
    if parts.len() == 0 {
        Err(ProtocolError::EmptyCommand)
    } else if same_text(name, "GET") {
        if parts.len() < 2 {
            Err(ProtocolError::GetRequiresKey)
        } else {
            Ok(Command::Get { key: parts[1].clone() })
        }
    } else if same_text(name, "SET") {
        parse_set_command(parts)
    } else if same_text(name, "EXPIRE") {
        if parts.len() < 3 {
            Err(ProtocolError::ExpireRequiresKeyAndSeconds)
        } else {
            match read_u64(parts[2].as_str()) {
                Some(seconds) => Ok(Command::Expire { key: parts[1].clone(), seconds }),
                None => Err(ProtocolError::InvalidSeconds),
            }
        }
    } else if same_text(name, "TTL") {
        if parts.len() < 2 {
            Err(ProtocolError::TtlRequiresKey)
        } else {
            Ok(Command::Ttl { key: parts[1].clone() })
        }
    } else if same_text(name, "INCR") {
        if parts.len() < 2 {
            Err(ProtocolError::IncrRequiresKey)
        } else {
            Ok(Command::Incr { key: parts[1].clone() })
        }
    } else if same_text(name, "DEL") {
        if parts.len() < 2 {
            Err(ProtocolError::DelRequiresKey)
        } else {
            Ok(Command::Del { key: parts[1].clone() })
        }
    } else if same_text(name, "PING") {
        Ok(Command::Ping)
    } else if same_text(name, "KEYS") {
        Ok(Command::Keys)
    } else {
        Err(ProtocolError::UnknownCommand { name: parts[0].clone() })
    }
}

/// A store after a command, and the command's response.
pub struct Outcome {
    pub store: StoreView,
    pub response: Seq<char>,
}

/// The instant that lies `seconds` after `now`.
pub open spec fn deadline(now: u64, seconds: u64) -> u128 {
    (now + seconds * NANOS_PER_SEC) as u128
}

/// The response that carries a stored value.
pub open spec fn value_reply(value: Seq<char>) -> Seq<char> {
    value + "\n"@
}

/// The response that carries an integer.
pub open spec fn integer_reply(i: int) -> Seq<char> {
    "(integer) "@ + integer_text(i) + "\n"@
}

/// One line of a key listing: the key's number, then the key in quotes.
pub open spec fn key_line(number: nat, key: Seq<char>) -> Seq<char> {
    decimal(number) + ") \""@ + key + "\"\n"@
}

/// The lines of a key listing, numbered from one.
pub open spec fn key_listing(keys: Seq<Seq<char>>) -> Seq<char>
    decreases keys.len(),
{
    if keys.len() == 0 {
        Seq::empty()
    } else {
        key_listing(keys.drop_last()) + key_line(keys.len(), keys.last())
    }
}

/// The response to `KEYS`.
pub open spec fn keys_reply(keys: Seq<Seq<char>>) -> Seq<char> {
    if keys.len() == 0 {
        "(empty list)\n"@
    } else {
        key_listing(keys)
    }
}

/// `GET`: the value of a live key. An expired entry is removed and
/// answered like an absent one.
pub open spec fn execute_get(store: StoreView, key: Seq<char>, now: u64) -> Outcome {
    if store.is_live(key, now) {
        Outcome { store, response: value_reply(store.entries[key].value) }
    } else {
        Outcome { store: store.remove(key), response: "(nil)\n"@ }
    }
}

/// `SET`: an unconditional upsert, with a deadline `ttl_secs` after `now`
/// or with none. The deadline is exact for every reading of the clock and
/// every 64-bit count of seconds.
pub open spec fn execute_set(
    store: StoreView,
    key: Seq<char>,
    value: Seq<char>,
    ttl_secs: Option<u64>,
    now: u64,
) -> Outcome {
    let expires_at = match ttl_secs {
        Some(seconds) => Some(deadline(now, seconds)),
        None => None,
    };
    Outcome { store: store.insert(key, EntryView { value, expires_at }), response: "OK\n"@ }
}

/// `EXPIRE`: gives a live key a new deadline and keeps its value. An
/// expired entry is removed and answered like an absent one.
pub open spec fn execute_expire(store: StoreView, key: Seq<char>, seconds: u64, now: u64) -> Outcome {
    if store.is_live(key, now) {
        let entry = EntryView {
            value: store.entries[key].value,
            expires_at: Some(deadline(now, seconds)),
        };
        Outcome { store: store.insert(key, entry), response: integer_reply(1) }
    } else {
        Outcome { store: store.remove(key), response: integer_reply(0) }
    }
}

/// `TTL`: the whole seconds that a key has left, `-1` for a key without a
/// deadline, `-2` for an absent key. An entry whose deadline is not in
/// the future is removed and answered like an absent one.
pub open spec fn execute_ttl(store: StoreView, key: Seq<char>, now: u64) -> Outcome {
    if !store.contains(key) {
        Outcome { store, response: integer_reply(-2) }
    } else {
        match store.entries[key].expires_at {
            None => Outcome { store, response: integer_reply(-1) },
            Some(at) => if now >= at {
                Outcome { store: store.remove(key), response: integer_reply(-2) }
            } else {
                Outcome { store, response: integer_reply((at - now) / (NANOS_PER_SEC as int)) }
            },
        }
    }
}

/// `INCR`: adds one to a live key whose value reads as a signed 64-bit
/// integer, and keeps its deadline. An absent key starts at one, without a
/// deadline; an expired entry is removed first and then counts as absent.
/// A value that is no such integer is left as it is.
///
/// The sum is exact. One more than the largest 64-bit integer is stored
/// and answered as such, and from then on the value is no 64-bit integer.
pub open spec fn execute_incr(store: StoreView, key: Seq<char>, now: u64) -> Outcome {
    if store.is_live(key, now) {
        let entry = store.entries[key];
        match parse_i64(entry.value) {
            Some(n) => Outcome {
                store: store.insert(
                    key,
                    EntryView { value: integer_text(n + 1), expires_at: entry.expires_at },
                ),
                response: integer_reply(n + 1),
            },
            None => Outcome { store, response: ProtocolErrorView::NotAnInteger.message() },
        }
    } else {
        Outcome {
            store: store.remove(key).insert(key, EntryView { value: "1"@, expires_at: None }),
            response: integer_reply(1),
        }
    }
}

/// `DEL`: removes a key, expired or not, and says whether there was one.
pub open spec fn execute_del(store: StoreView, key: Seq<char>) -> Outcome {
    Outcome {
        store: store.remove(key),
        response: if store.contains(key) {
            integer_reply(1)
        } else {
            integer_reply(0)
        },
    }
}

/// `KEYS`: sweeps the store, then lists what is left in walking order.
pub open spec fn execute_keys(store: StoreView, now: u64) -> Outcome {
    let swept = store.sweep(now);
    Outcome { store: swept, response: keys_reply(swept.order) }
}

/// What a command does to a store at the instant `now`, and what it
/// answers.
pub open spec fn execute(command: CommandView, store: StoreView, now: u64) -> Outcome {
    match command {
        CommandView::Get { key } => execute_get(store, key, now),
        CommandView::Put { key, value, ttl_secs } => execute_set(store, key, value, ttl_secs, now),
        CommandView::Expire { key, seconds } => execute_expire(store, key, seconds, now),
        CommandView::Ttl { key } => execute_ttl(store, key, now),
        CommandView::Incr { key } => execute_incr(store, key, now),
        CommandView::Del { key } => execute_del(store, key),
        CommandView::Ping => Outcome { store, response: "PONG\n"@ },
        CommandView::Keys => execute_keys(store, now),
    }
}

/// What a request does and answers, given its words and the uppercase
/// form of the first of them. A request that cannot be read leaves the
/// store alone and is answered with its error.
pub open spec fn respond(name: Seq<char>, parts: Seq<Seq<char>>, store: StoreView, now: u64) -> Outcome {
    match parse(name, parts) {
        Ok(command) => execute(command, store, now),
        Err(error) => Outcome { store, response: error.message() },
    }
}

/// What a request line does and answers.
pub open spec fn process(line: Seq<char>, store: StoreView, now: u64) -> Outcome {
    let parts = words(line);
    if parts.len() == 0 {
        Outcome { store, response: ProtocolErrorView::EmptyCommand.message() }
    } else {
        respond(upper(parts[0]), parts, store, now)
    }
}

/// The response that carries an integer.
fn integer_response(i: i128) -> (text: String)
    ensures
        text@ == integer_reply(i as int),
{
    let mut text = String::from_str("(integer) ");
    write_integer(&mut text, i);
    text.append("\n");
    text
}

/// The instant that lies `seconds` after `now`.
fn deadline_after(now: u64, seconds: u64) -> (at: u128)
    ensures
        at == deadline(now, seconds),
{
    now as u128 + seconds as u128 * NANOS_PER_SEC
}

fn run_get(store: &mut Store, key: &str, now: u64) -> (response: String)
    requires
        old(store).wf(),
    ensures
        final(store).wf(),
        final(store)@ == execute_get(old(store)@, key@, now).store,
        response@ == execute_get(old(store)@, key@, now).response,
{
    let live = match store.get(key) {
        Some(entry) => {
            if entry.is_expired(now) {
                None
            } else {
                let mut text = entry.value.clone();
                text.append("\n");
                Some(text)
            }
        },
        None => None,
    };
    match live {
        Some(text) => text,
        None => {
            store.remove(key);
            String::from_str("(nil)\n")
        },
    }
}

fn run_set(store: &mut Store, key: String, value: String, ttl_secs: Option<u64>, now: u64) -> (response:
    String)
    requires
        old(store).wf(),
    ensures
        final(store).wf(),
        final(store)@ == execute_set(old(store)@, key@, value@, ttl_secs, now).store,
        response@ == execute_set(old(store)@, key@, value@, ttl_secs, now).response,
{
    let expires_at = match ttl_secs {
        Some(seconds) => Some(deadline_after(now, seconds)),
        None => None,
    };
    store.insert(key, Entry::with_expiry(value, expires_at));
    String::from_str("OK\n")
}

fn run_expire(store: &mut Store, key: String, seconds: u64, now: u64) -> (response: String)
    requires
        old(store).wf(),
    ensures
        final(store).wf(),
        final(store)@ == execute_expire(old(store)@, key@, seconds, now).store,
        response@ == execute_expire(old(store)@, key@, seconds, now).response,
{
    let live = match store.get(key.as_str()) {
        Some(entry) => {
            if entry.is_expired(now) {
                None
            } else {
                Some(entry.value.clone())
            }
        },
        None => None,
    };
    match live {
        Some(value) => {
            store.insert(key, Entry::with_expiry(value, Some(deadline_after(now, seconds))));
            integer_response(1)
        },
        None => {
            store.remove(key.as_str());
            integer_response(0)
        },
    }
}

fn run_ttl(store: &mut Store, key: &str, now: u64) -> (response: String)
    requires
        old(store).wf(),
    ensures
        final(store).wf(),
        final(store)@ == execute_ttl(old(store)@, key@, now).store,
        response@ == execute_ttl(old(store)@, key@, now).response,
{
    let found = match store.get(key) {
        Some(entry) => Some(entry.expires_at),
        None => None,
    };
    match found {
        None => integer_response(-2),
        Some(None) => integer_response(-1),
        Some(Some(at)) => {
            if now as u128 >= at {
                store.remove(key);
                integer_response(-2)
            } else {
                let seconds: u128 = (at - now as u128) / NANOS_PER_SEC;
                integer_response(seconds as i128)
            }
        },
    }
}

fn run_incr(store: &mut Store, key: String, now: u64) -> (response: String)
    requires
        old(store).wf(),
    ensures
        final(store).wf(),
        final(store)@ == execute_incr(old(store)@, key@, now).store,
        response@ == execute_incr(old(store)@, key@, now).response,
{
    let live = match store.get(key.as_str()) {
        Some(entry) => {
            if entry.is_expired(now) {
                None
            } else {
                Some((read_i64(entry.value.as_str()), entry.expires_at))
            }
        },
        None => None,
    };
    match live {
        Some((Some(n), expires_at)) => {
            let next: i128 = n as i128 + 1;
            let mut value = String::new();
            write_integer(&mut value, next);
            assert(value@ =~= integer_text(next as int));
            store.insert(key, Entry::with_expiry(value, expires_at));
            integer_response(next)
        },
        Some((None, _)) => ProtocolError::NotAnInteger.message(),
        None => {
            proof {
                store.lemma_view_wf();
                store@.lemma_remove(key@);
            }
            store.remove(key.as_str());
            store.insert(key, Entry::with_expiry(String::from_str("1"), None));
            integer_response(1)
        },
    }
}

fn run_del(store: &mut Store, key: &str) -> (response: String)
    requires
        old(store).wf(),
    ensures
        final(store).wf(),
        final(store)@ == execute_del(old(store)@, key@).store,
        response@ == execute_del(old(store)@, key@).response,
{
    match store.remove(key) {
        Some(_) => integer_response(1),
        None => integer_response(0),
    }
}

fn run_keys(store: &mut Store, now: u64) -> (response: String)
    requires
        old(store).wf(),
    ensures
        final(store).wf(),
        final(store)@ == execute_keys(old(store)@, now).store,
        response@ == execute_keys(old(store)@, now).response,
{
    cleanup_all_expired(store, now);
    let keys = store.keys();
    if keys.len() == 0 {
        return String::from_str("(empty list)\n");
    }
    let ghost all = texts(keys@);
    let mut listing = String::new();
    let mut i: usize = 0;
    assert(all.take(0) =~= Seq::<Seq<char>>::empty());
    while i < keys.len()
        invariant
            i <= keys@.len(),
            all == texts(keys@),
            listing@ == key_listing(all.take(i as int)),
        decreases keys@.len() - i,
    {
        proof {
            let next = all.take(i + 1);
            assert(next.drop_last() =~= all.take(i as int));
            assert(next.last() == keys@[i as int]@);
            assert(next.len() == i + 1);
        }
        let ghost before = listing@;
        write_decimal(&mut listing, i as u128 + 1);
        listing.append(") \"");
        listing.append(keys[i].as_str());
        listing.append("\"\n");
        assert(listing@ =~= before + key_line((i + 1) as nat, keys@[i as int]@));
        i = i + 1;
    }
    assert(all.take(i as int) =~= all);
    listing
}

/// Runs a command on the store at the instant `now` and returns its
/// response.
pub fn execute_command(command: Command, store: &mut Store, now: u64) -> (response: String)
    requires
        old(store).wf(),
    ensures
        final(store).wf(),
        final(store)@ == execute(command@, old(store)@, now).store,
        response@ == execute(command@, old(store)@, now).response,
{
    match command {
        Command::Get { key } => run_get(store, key.as_str(), now),
        Command::Put { key, value, ttl_secs } => run_set(store, key, value, ttl_secs, now),
        Command::Expire { key, seconds } => run_expire(store, key, seconds, now),
        Command::Ttl { key } => run_ttl(store, key.as_str(), now),
        Command::Incr { key } => run_incr(store, key, now),
        Command::Del { key } => run_del(store, key.as_str()),
        Command::Ping => String::from_str("PONG\n"),
        Command::Keys => run_keys(store, now),
    }
}

/// Answers a request, given its words and the uppercase form of the first
/// of them: reads the command and runs it, or reports why it cannot be
/// read.
pub fn respond_to(name: &str, parts: &Vec<String>, store: &mut Store, now: u64) -> (response: String)
    requires
        old(store).wf(),
    ensures
        final(store).wf(),
        final(store)@ == respond(name@, texts(parts@), old(store)@, now).store,
        response@ == respond(name@, texts(parts@), old(store)@, now).response,
{
    match parse_command(name, parts) {
        Ok(command) => execute_command(command, store, now),
        Err(error) => error.message(),
    }
}

/// Processes one request line against the store at the instant `now` and
/// returns the response, which always ends in a newline.
///
/// A line that cannot be read changes nothing and is answered with an
/// `ERROR:` line.
pub fn process_command(line: &str, store: &mut Store, now: u64) -> (response: String)
    requires
        old(store).wf(),
    ensures
        final(store).wf(),
        final(store)@ == process(line@, old(store)@, now).store,
        response@ == process(line@, old(store)@, now).response,
{
    let parts = split_words(line);
    if parts.len() == 0 {
        return ProtocolError::EmptyCommand.message();
    }
    let name = to_upper(parts[0].as_str());
    respond_to(name.as_str(), &parts, store, now)
}

} // verus!
