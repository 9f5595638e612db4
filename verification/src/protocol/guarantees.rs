//! What clients can rely on, proved from the definitions of the commands.

use crate::protocol::command::{
    deadline, execute, integer_reply, key_listing, keys_reply, parse, parse_set, process, respond,
    value_reply, CommandView, Outcome, ProtocolErrorView,
};
use crate::protocol::number::{integer_text, lemma_integer_text_round_trip, parse_i64, parse_u64};
use crate::storage::db::{EntryView, StoreView, NANOS_PER_SEC};
use crate::text::{upper, words};
use vstd::prelude::*;

verus! {

/// Whether a command can bring `key` into being: only `SET` and `INCR`
/// of that key can.
pub open spec fn writes(command: CommandView, key: Seq<char>) -> bool {
    match command {
        CommandView::Put { key: k, .. } => k == key,
        CommandView::Incr { key: k } => k == key,
        _ => false,
    }
}

/// The store that results from running commands, each at its own instant,
/// one after another on an empty store.
pub open spec fn replay(history: Seq<(CommandView, u64)>) -> StoreView
    decreases history.len(),
{
    if history.len() == 0 {
        StoreView::empty()
    } else {
        execute(history.last().0, replay(history.drop_last()), history.last().1).store
    }
}

/// Every command leaves a well-formed store well-formed.
pub proof fn lemma_execute_keeps_wf(command: CommandView, store: StoreView, now: u64)
    requires
        store.wf(),
    ensures
        execute(command, store, now).store.wf(),
{
    match command {
        CommandView::Get { key } => {
            store.lemma_remove(key);
        },
        CommandView::Put { key, value, ttl_secs } => {
            let expires_at = match ttl_secs {
                Some(seconds) => Some(deadline(now, seconds)),
                None => None,
            };
            store.lemma_insert(key, EntryView { value, expires_at });
        },
        CommandView::Expire { key, seconds } => {
            store.lemma_remove(key);
            store.lemma_insert(
                key,
                EntryView { value: store.entries[key].value, expires_at: Some(deadline(now, seconds)) },
            );
        },
        CommandView::Ttl { key } => {
            store.lemma_remove(key);
        },
        CommandView::Incr { key } => {
            store.lemma_remove(key);
            store.remove(key).lemma_insert(key, EntryView { value: "1"@, expires_at: None });
            if store.is_live(key, now) {
                let entry = store.entries[key];
                if let Some(n) = parse_i64(entry.value) {
                    store.lemma_insert(
                        key,
                        EntryView { value: integer_text(n + 1), expires_at: entry.expires_at },
                    );
                }
            }
        },
        CommandView::Del { key } => {
            store.lemma_remove(key);
        },
        CommandView::Ping => {},
        CommandView::Keys => {
            store.lemma_sweep(now);
        },
    }
}

/// Every history of commands leaves a well-formed store.
pub proof fn lemma_replay_wf(history: Seq<(CommandView, u64)>)
    ensures
        replay(history).wf(),
    decreases history.len(),
{
    if history.len() > 0 {
        lemma_replay_wf(history.drop_last());
        lemma_execute_keeps_wf(history.last().0, replay(history.drop_last()), history.last().1);
    }
}

/// A command creates no key but the one it writes.
pub proof fn lemma_only_writes_create(command: CommandView, store: StoreView, key: Seq<char>, now: u64)
    requires
        store.wf(),
        !store.contains(key),
        !writes(command, key),
    ensures
        !execute(command, store, now).store.contains(key),
{
    match command {
        CommandView::Get { key: k } => {
            store.lemma_remove(k);
        },
        CommandView::Put { .. } => {},
        CommandView::Expire { key: k, .. } => {
            store.lemma_remove(k);
        },
        CommandView::Ttl { key: k } => {
            store.lemma_remove(k);
        },
        CommandView::Incr { key: k } => {
            store.lemma_remove(k);
        },
        CommandView::Del { key: k } => {
            store.lemma_remove(k);
        },
        CommandView::Ping => {},
        CommandView::Keys => {
            store.lemma_sweep(now);
        },
    }
}

/// A key that was never set reads as absent: after any history in which
/// no `SET` or `INCR` named the key, `GET` answers nil and `TTL` answers
/// -2, and neither changes the store.
pub proof fn never_set_key_is_absent(history: Seq<(CommandView, u64)>, key: Seq<char>, now: u64)
    requires
        forall|i: int| 0 <= i < history.len() ==> !writes(#[trigger] history[i].0, key),
    ensures
        !replay(history).contains(key),
        execute(CommandView::Get { key }, replay(history), now) == (Outcome {
            store: replay(history),
            response: "(nil)\n"@,
        }),
        execute(CommandView::Ttl { key }, replay(history), now) == (Outcome {
            store: replay(history),
            response: integer_reply(-2),
        }),
    decreases history.len(),
{
    if history.len() > 0 {
        let earlier = history.drop_last();
        assert forall|i: int| 0 <= i < earlier.len() implies !writes(
            #[trigger] earlier[i].0,
            key,
        ) by {
            assert(earlier[i] == history[i]);
        }
        never_set_key_is_absent(earlier, key, now);
        lemma_replay_wf(earlier);
        lemma_only_writes_create(history.last().0, replay(earlier), key, history.last().1);
    }
}

/// What was set is what is read: after `SET key value` without `EX`, the
/// key has no deadline, so at any later instant `GET` answers the value
/// and `TTL` answers -1, and neither changes the store.
pub proof fn set_then_get(store: StoreView, key: Seq<char>, value: Seq<char>, now: u64, later: u64)
    ensures
        ({
            let set = execute(CommandView::Put { key, value, ttl_secs: None }, store, now);
            &&& set.response == "OK\n"@
            &&& set.store.entries[key] == (EntryView { value, expires_at: None })
            &&& execute(CommandView::Get { key }, set.store, later) == (Outcome {
                store: set.store,
                response: value_reply(value),
            })
            &&& execute(CommandView::Ttl { key }, set.store, later) == (Outcome {
                store: set.store,
                response: integer_reply(-1),
            })
        }),
{
}

/// A value set with `EX seconds` is read back as long as the clock is not
/// past the deadline, and is gone once it is: `GET` then answers nil and
/// removes the entry. With `EX 0` that is every instant after the `SET`.
pub proof fn set_with_ttl_then_get(
    store: StoreView,
    key: Seq<char>,
    value: Seq<char>,
    seconds: u64,
    now: u64,
    later: u64,
)
    requires
        store.wf(),
    ensures
        ({
            let set = execute(CommandView::Put { key, value, ttl_secs: Some(seconds) }, store, now);
            let get = execute(CommandView::Get { key }, set.store, later);
            &&& later <= now + seconds * NANOS_PER_SEC ==> get.response == value_reply(value)
                && get.store == set.store
            &&& later > now + seconds * NANOS_PER_SEC ==> get.response == "(nil)\n"@
                && !get.store.contains(key)
            &&& seconds == 0 && later > now ==> get.response == "(nil)\n"@
        }),
{
    let set = execute(CommandView::Put { key, value, ttl_secs: Some(seconds) }, store, now);
    store.lemma_insert(key, EntryView { value, expires_at: Some(deadline(now, seconds)) });
    set.store.lemma_remove(key);
    assert(now + seconds * NANOS_PER_SEC <= u128::MAX) by (nonlinear_arith)
        requires
            now <= u64::MAX,
            seconds <= u64::MAX,
            NANOS_PER_SEC == 1_000_000_000,
    ;
}

/// `INCR` on a key that is absent or expired yields 1 and leaves the key
/// with the value `1` and no deadline.
pub proof fn incr_starts_at_one(store: StoreView, key: Seq<char>, now: u64)
    requires
        store.wf(),
        !store.is_live(key, now),
    ensures
        execute(CommandView::Incr { key }, store, now).response == integer_reply(1),
        execute(CommandView::Incr { key }, store, now).store.entries[key] == (EntryView {
            value: "1"@,
            expires_at: None,
        }),
        parse_i64("1"@) == Some(1i64),
{
    reveal_strlit("1");
    assert("1"@ =~= integer_text(1));
    lemma_integer_text_round_trip(1);
}

/// `INCR` on a live key that holds the integer `n` answers `n + 1`,
/// stores `n + 1` in decimal, keeps the key's deadline and touches no
/// other key. Unless `n` is the largest 64-bit integer, the stored value
/// reads back as `n + 1`, so the next `INCR` counts on from there.
pub proof fn incr_adds_one(store: StoreView, key: Seq<char>, n: i64, now: u64)
    requires
        store.wf(),
        store.is_live(key, now),
        parse_i64(store.entries[key].value) == Some(n),
    ensures
        ({
            let incr = execute(CommandView::Incr { key }, store, now);
            &&& incr.response == integer_reply(n + 1)
            &&& incr.store.entries[key].value == integer_text(n + 1)
            &&& incr.store.entries[key].expires_at == store.entries[key].expires_at
            &&& incr.store.is_live(key, now)
            &&& incr.store.order == store.order
            &&& forall|other: Seq<char>|
                other != key ==> (incr.store.contains(other) <==> store.contains(other)) && (
                store.contains(other) ==> incr.store.entries[other] == store.entries[other])
            &&& n < i64::MAX ==> parse_i64(incr.store.entries[key].value) == Some((n + 1) as i64)
        }),
{
    lemma_integer_text_round_trip(n + 1);
}

/// `INCR` on a live key whose value is not an integer reports an error
/// and changes nothing.
pub proof fn incr_rejects_non_integer(store: StoreView, key: Seq<char>, now: u64)
    requires
        store.is_live(key, now),
        parse_i64(store.entries[key].value) is None,
    ensures
        execute(CommandView::Incr { key }, store, now) == (Outcome {
            store,
            response: ProtocolErrorView::NotAnInteger.message(),
        }),
{
}

/// After `EXPIRE key seconds` on a live key, `TTL` at a later instant
/// before the deadline answers the whole seconds that remain and changes
/// nothing. The answer is at most `seconds`, and it is positive as long
/// as a full second remains.
pub proof fn expire_then_ttl(
    store: StoreView,
    key: Seq<char>,
    seconds: u64,
    now: u64,
    later: u64,
)
    requires
        store.wf(),
        store.is_live(key, now),
        now <= later < now + seconds * NANOS_PER_SEC,
    ensures
        ({
            let expire = execute(CommandView::Expire { key, seconds }, store, now);
            let ttl = execute(CommandView::Ttl { key }, expire.store, later);
            let remaining = (now + seconds * NANOS_PER_SEC - later) / (NANOS_PER_SEC as int);
            &&& expire.response == integer_reply(1)
            &&& expire.store.entries[key].value == store.entries[key].value
            &&& ttl.response == integer_reply(remaining)
            &&& ttl.store == expire.store
            &&& 0 <= remaining <= seconds
            &&& later + NANOS_PER_SEC <= now + seconds * NANOS_PER_SEC ==> remaining > 0
        }),
{
    assert(now + seconds * NANOS_PER_SEC <= u128::MAX) by (nonlinear_arith)
        requires
            now <= u64::MAX,
            seconds <= u64::MAX,
            NANOS_PER_SEC == 1_000_000_000,
    ;
    let span = now + seconds * NANOS_PER_SEC - later;
    assert(span <= seconds * 1_000_000_000);
    assert(span / 1_000_000_000 <= seconds);
}

/// The answer of `TTL` never grows as time passes, and two answers at
/// least a second apart differ: for a key with the deadline `at` and two
/// instants before it, the later one has no more seconds left, and fewer
/// if a full second lies between them.
pub proof fn ttl_counts_down(store: StoreView, key: Seq<char>, at: u128, first: u64, second: u64)
    requires
        store.contains(key),
        store.entries[key].expires_at == Some(at),
        first <= second < at,
    ensures
        ({
            let earlier = execute(CommandView::Ttl { key }, store, first);
            let later = execute(CommandView::Ttl { key }, earlier.store, second);
            let left_first = (at - first) / (NANOS_PER_SEC as int);
            let left_second = (at - second) / (NANOS_PER_SEC as int);
            &&& earlier.store == store
            &&& later.store == store
            &&& earlier.response == integer_reply(left_first)
            &&& later.response == integer_reply(left_second)
            &&& left_second <= left_first
            &&& second - first >= NANOS_PER_SEC ==> left_second < left_first
        }),
{
}

/// `GET` never hands out an expired value: on a key whose entry is
/// expired it answers nil and removes the entry.
pub proof fn get_hides_expired(store: StoreView, key: Seq<char>, now: u64)
    requires
        store.wf(),
        store.is_expired(key, now),
    ensures
        execute(CommandView::Get { key }, store, now).response == "(nil)\n"@,
        !execute(CommandView::Get { key }, store, now).store.contains(key),
{
    store.lemma_remove(key);
}

/// Lazy expiry: to the commands that read or update one key, an expired
/// entry is the same as no entry. `GET`, `TTL`, `EXPIRE` and `INCR` on a
/// key whose entry is expired answer, and leave the store, exactly as if
/// the entry had been removed beforehand.
pub proof fn expired_reads_as_absent(store: StoreView, key: Seq<char>, seconds: u64, now: u64)
    requires
        store.wf(),
        store.is_expired(key, now),
    ensures
        execute(CommandView::Get { key }, store, now) == execute(
            CommandView::Get { key },
            store.remove(key),
            now,
        ),
        execute(CommandView::Ttl { key }, store, now) == execute(
            CommandView::Ttl { key },
            store.remove(key),
            now,
        ),
        execute(CommandView::Expire { key, seconds }, store, now) == execute(
            CommandView::Expire { key, seconds },
            store.remove(key),
            now,
        ),
        execute(CommandView::Incr { key }, store, now) == execute(
            CommandView::Incr { key },
            store.remove(key),
            now,
        ),
{
    store.lemma_remove(key);
}

/// `KEYS` sweeps before it lists: the store it leaves holds exactly the
/// entries that were live, unchanged, and the listing names exactly those
/// keys, each once, and no expired one.
pub proof fn keys_lists_live_keys(store: StoreView, now: u64)
    requires
        store.wf(),
    ensures
        ({
            let keys = execute(CommandView::Keys, store, now);
            &&& keys.store == store.sweep(now)
            &&& keys.response == keys_reply(keys.store.order)
            &&& keys.store.order.no_duplicates()
            &&& forall|key: Seq<char>| keys.store.order.contains(key) <==> store.is_live(key, now)
            &&& forall|key: Seq<char>|
                store.is_live(key, now) ==> keys.store.entries[key] == store.entries[key]
            &&& forall|key: Seq<char>| !keys.store.is_expired(key, now)
        }),
{
    store.lemma_sweep(now);
}

/// A key listing that names at least one key ends in a newline.
proof fn lemma_key_listing_ends_line(keys: Seq<Seq<char>>)
    requires
        keys.len() > 0,
    ensures
        key_listing(keys).len() > 0,
        key_listing(keys).last() == '\n',
{
    reveal_strlit("\"\n");
}

/// Every response is at least one character long and ends in a newline.
pub proof fn response_ends_line(line: Seq<char>, store: StoreView, now: u64)
    ensures
        process(line, store, now).response.len() > 0,
        process(line, store, now).response.last() == '\n',
{
    reveal_strlit("\n");
    reveal_strlit("'\n");
    reveal_strlit("(nil)\n");
    reveal_strlit("OK\n");
    reveal_strlit("PONG\n");
    reveal_strlit("(empty list)\n");
    reveal_strlit("ERROR: Empty command\n");
    reveal_strlit("ERROR: GET requires a key\n");
    reveal_strlit("ERROR: SET requires a key and value\n");
    reveal_strlit("ERROR: Invalid EX value\n");
    reveal_strlit("ERROR: EX requires seconds argument\n");
    reveal_strlit("ERROR: EXPIRE requires a key and seconds\n");
    reveal_strlit("ERROR: Invalid seconds\n");
    reveal_strlit("ERROR: TTL requires a key\n");
    reveal_strlit("ERROR: INCR requires a key\n");
    reveal_strlit("ERROR: DEL requires a key\n");
    reveal_strlit("ERROR: value is not an integer\n");
    let parts = words(line);
    if parts.len() > 0 {
        let name = upper(parts[0]);
        match parse(name, parts) {
            Ok(CommandView::Keys) => {
                let swept = store.sweep(now);
                if swept.order.len() > 0 {
                    lemma_key_listing_ends_line(swept.order);
                }
            },
            _ => {},
        }
    }
}

/// Each command name selects its own command: no name is shadowed by
/// another. A request with too few words is refused under its own name.
pub proof fn names_select_commands(parts: Seq<Seq<char>>)
    requires
        parts.len() >= 1,
    ensures
        parse("PING"@, parts) == Ok::<CommandView, ProtocolErrorView>(CommandView::Ping),
        parse("KEYS"@, parts) == Ok::<CommandView, ProtocolErrorView>(CommandView::Keys),
        parse("SET"@, parts) == parse_set(parts),
        parse("GET"@, parts) == if parts.len() >= 2 {
            Ok::<CommandView, ProtocolErrorView>(CommandView::Get { key: parts[1] })
        } else {
            Err(ProtocolErrorView::GetRequiresKey)
        },
        parse("TTL"@, parts) == if parts.len() >= 2 {
            Ok::<CommandView, ProtocolErrorView>(CommandView::Ttl { key: parts[1] })
        } else {
            Err(ProtocolErrorView::TtlRequiresKey)
        },
        parse("INCR"@, parts) == if parts.len() >= 2 {
            Ok::<CommandView, ProtocolErrorView>(CommandView::Incr { key: parts[1] })
        } else {
            Err(ProtocolErrorView::IncrRequiresKey)
        },
        parse("DEL"@, parts) == if parts.len() >= 2 {
            Ok::<CommandView, ProtocolErrorView>(CommandView::Del { key: parts[1] })
        } else {
            Err(ProtocolErrorView::DelRequiresKey)
        },
        parse("EXPIRE"@, parts) == if parts.len() < 3 {
            Err::<CommandView, ProtocolErrorView>(ProtocolErrorView::ExpireRequiresKeyAndSeconds)
        } else {
            match parse_u64(parts[2]) {
                Some(seconds) => Ok(CommandView::Expire { key: parts[1], seconds }),
                None => Err(ProtocolErrorView::InvalidSeconds),
            }
        },
{
    reveal_strlit("GET");
    reveal_strlit("SET");
    reveal_strlit("EXPIRE");
    reveal_strlit("TTL");
    reveal_strlit("INCR");
    reveal_strlit("DEL");
    reveal_strlit("PING");
    reveal_strlit("KEYS");
    assert("GET"@.len() == 3 && "GET"@[0] == 'G');
    assert("SET"@.len() == 3 && "SET"@[0] == 'S');
    assert("TTL"@.len() == 3 && "TTL"@[0] == 'T');
    assert("DEL"@.len() == 3 && "DEL"@[0] == 'D');
    assert("INCR"@.len() == 4 && "INCR"@[0] == 'I');
    assert("PING"@.len() == 4 && "PING"@[0] == 'P');
    assert("KEYS"@.len() == 4 && "KEYS"@[0] == 'K');
    assert("EXPIRE"@.len() == 6);
}

/// A request that cannot be read changes nothing.
pub proof fn unreadable_request_changes_nothing(
    name: Seq<char>,
    parts: Seq<Seq<char>>,
    store: StoreView,
    now: u64,
)
    requires
        parse(name, parts) is Err,
    ensures
        respond(name, parts, store, now).store == store,
        respond(name, parts, store, now).response == parse(name, parts)->Err_0.message(),
{
}

} // verus!
