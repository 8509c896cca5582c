//! The command executor: runs one request line against the store and
//! renders the textual response.
use vstd::prelude::*;
use crate::command::{parsed_as, Command};
use crate::error::{exists_text, not_found_text, FerrisError};
use crate::model::{MAX_INSTANT, expiry_after, lists_keys, new_record, ttl_report, Record};
use crate::persistence::Persistence;
use crate::store::{key_seq, now_nanos, Store};
use crate::text::{decimal, push_decimal, push_text};

verus! {

/// The one-line response that reports a failure with description `msg`.
pub open spec fn error_text(msg: Seq<char>) -> Seq<char> {
    "ERROR: "@ + msg + "\n"@
}

/// The response to a mutation that was applied: `OK`, or the failure that
/// saving reported.
pub open spec fn mutation_reply(out: Seq<char>) -> bool {
    out == "OK\n"@ || exists|e: FerrisError| out == error_text(#[trigger] e.message_spec())
}

/// One line per key, in the order given.
pub open spec fn key_lines(ks: Seq<Seq<char>>) -> Seq<char>
    decreases ks.len(),
{
    if ks.len() == 0 {
        Seq::empty()
    } else {
        key_lines(ks.drop_last()) + ks.last() + "\n"@
    }
}

/// The response listing the keys `ks`, closed by `END`.
pub open spec fn key_listing(ks: Seq<Seq<char>>) -> Seq<char> {
    if ks.len() == 0 {
        "(empty)\nEND\n"@
    } else {
        key_lines(ks) + "END\n"@
    }
}

/// Running `cmd` at instant `now` on a store holding `s0` leaves it holding
/// `s1` and answers `out`.
pub open spec fn executed(
    cmd: Command,
    s0: Map<Seq<char>, Record>,
    s1: Map<Seq<char>, Record>,
    now: int,
    out: Seq<char>,
) -> bool {
    match cmd {
        Command::Ping => s1 == s0 && out == "PONG\n"@,
        Command::Get { key } => s1 == s0 && out == if s0.contains_key(key@) {
            s0[key@].value + "\n"@
        } else {
            error_text(not_found_text(key@))
        },
        Command::SetValue { key, value, ttl } => if s0.contains_key(key@) {
            s1 == s0 && out == error_text(exists_text(key@))
        } else {
            s1 == s0.insert(key@, new_record(value@, ttl, now)) && mutation_reply(out)
        },
        Command::Delete { key } => if !s0.contains_key(key@) {
            s1 == s0 && out == error_text(not_found_text(key@))
        } else {
            s1 == s0.remove(key@) && mutation_reply(out)
        },
        Command::Rename { old_key, new_key } => if !s0.contains_key(old_key@) {
            s1 == s0 && out == error_text(not_found_text(old_key@))
        } else if s0.contains_key(new_key@) {
            s1 == s0 && out == error_text(exists_text(new_key@))
        } else {
            s1 == s0.remove(old_key@).insert(new_key@, s0[old_key@]) && mutation_reply(out)
        },
        Command::Expire { key, ttl } => if !s0.contains_key(key@) {
            s1 == s0 && out == error_text(not_found_text(key@))
        } else {
            s1 == s0.insert(
                key@,
                Record { value: s0[key@].value, expiry: Some(expiry_after(now, ttl as int)) },
            ) && mutation_reply(out)
        },
        Command::Ttl { key } => s1 == s0 && out == if !s0.contains_key(key@) {
            error_text(not_found_text(key@))
        } else {
            match ttl_report(s0[key@], now) {
                Some(n) => decimal(n as nat) + "\n"@,
                None => "(no ttl)\nEND\n"@,
            }
        },
        Command::Keys => s1 == s0 && exists|ks: Seq<Seq<char>>| lists_keys(ks, s0) && out
            == key_listing(ks),
        Command::Count => s1 == s0 && out == decimal(s0.len()) + "\n"@,
        Command::Clear => s1 == Map::<Seq<char>, Record>::empty() && mutation_reply(out),
    }
}

/// `p` is what parsing the line `input` gives, and the store went from `s0`
/// to `s1` answering `out`: the parse error and no change when the line does
/// not parse, else the command run at instant `now`.
pub open spec fn answered(
    input: Seq<char>,
    p: Result<Command, FerrisError>,
    s0: Map<Seq<char>, Record>,
    s1: Map<Seq<char>, Record>,
    now: int,
    out: Seq<char>,
) -> bool {
    &&& parsed_as(input, p)
    &&& match p {
        Ok(cmd) => executed(cmd, s0, s1, now, out),
        Err(e) => s1 == s0 && out == error_text(e.message_spec()),
    }
}

/// Renders `ERROR: <description>` as one line.
pub fn error_line(e: &FerrisError) -> (r: String)
    ensures
        r@ == error_text(e.message_spec()),
{
    let mut s = String::new();
    push_text(&mut s, "ERROR: ");
    let m = e.message();
    push_text(&mut s, m.as_str());
    push_text(&mut s, "\n");
    s
}

/// Renders the outcome of a mutation: `OK`, or the failure.
fn mutation_line(r: Result<(), FerrisError>) -> (out: String)
    ensures
        r is Ok ==> out@ == "OK\n"@,
        r matches Err(e) ==> out@ == error_text(e.message_spec()),
        mutation_reply(out@),
{
    match r {
        Ok(()) => {
            let mut s = String::new();
            push_text(&mut s, "OK\n");
            s
        },
        Err(e) => {
            let s = error_line(&e);
            assert(s@ == error_text(e.message_spec()));
            s
        },
    }
}

/// Renders a key listing closed by `END`.
pub fn render_keys(ks: &Vec<&String>) -> (r: String)
    ensures
        r@ == key_listing(key_seq(ks@)),
{
    let mut s = String::new();
    if ks.len() == 0 {
        push_text(&mut s, "(empty)\nEND\n");
        return s;
    }
    let mut i: usize = 0;
    while i < ks.len()
        invariant
            0 <= i <= ks@.len(),
            s@ == key_lines(key_seq(ks@).take(i as int)),
        decreases ks@.len() - i,
    {
        let k: &String = ks[i];
        push_text(&mut s, k.as_str());
        push_text(&mut s, "\n");
        proof {
            let t = key_seq(ks@).take(i + 1);
            assert(t.drop_last() =~= key_seq(ks@).take(i as int));
        }
        i = i + 1;
    }
    assert(key_seq(ks@).take(ks@.len() as int) =~= key_seq(ks@));
    push_text(&mut s, "END\n");
    s
}

/// Runs a parsed command at instant `now` and renders the response.
pub fn execute_parsed<P: Persistence>(cmd: Command, store: &mut Store<P>, now: u128) -> (r: String)
    requires
        old(store).wf(),
    ensures
        final(store).wf(),
        executed(cmd, old(store)@, final(store)@, now as int, r@),
{
    let ghost c = cmd;
    match cmd {
        Command::Ping => {
            let mut s = String::new();
            push_text(&mut s, "PONG\n");
            s
        },
        Command::Get { key } => match store.get(key.as_str()) {
            Ok(v) => {
                let mut s = String::new();
                push_text(&mut s, v.as_str());
                push_text(&mut s, "\n");
                s
            },
            Err(e) => error_line(&e),
        },
        Command::SetValue { key, value, ttl } => {
            let r = store.set_at(key, value, ttl, now);
            mutation_line(r)
        },
        Command::Delete { key } => {
            let r = store.delete(key.as_str());
            mutation_line(r)
        },
        Command::Rename { old_key, new_key } => {
            let r = store.rename(old_key, new_key);
            mutation_line(r)
        },
        Command::Expire { key, ttl } => {
            let r = store.expire_at(key, ttl, now);
            mutation_line(r)
        },
        Command::Ttl { key } => match store.ttl_at(key.as_str(), now) {
            Ok(Some(t)) => {
                let mut s = String::new();
                push_decimal(&mut s, t);
                push_text(&mut s, "\n");
                s
            },
            Ok(None) => {
                let mut s = String::new();
                push_text(&mut s, "(no ttl)\nEND\n");
                s
            },
            Err(e) => error_line(&e),
        },
        Command::Keys => {
            let ks = store.keys();
            render_keys(&ks)
        },
        Command::Count => {
            let n = store.count();
            let mut s = String::new();
            push_decimal(&mut s, n as u64);
            push_text(&mut s, "\n");
            s
        },
        Command::Clear => {
            let r = store.clear();
            mutation_line(r)
        },
    }
}

/// Parses `input` and runs it at instant `now`; a line that does not parse
/// is answered with its error and leaves the store as it was.
pub fn execute_at<P: Persistence>(input: &str, store: &mut Store<P>, now: u128) -> (r: String)
    requires
        old(store).wf(),
    ensures
        final(store).wf(),
        exists|p: Result<Command, FerrisError>| #[trigger]
            answered(input@, p, old(store)@, final(store)@, now as int, r@),
{
    let p = Command::parse(input);
    let ghost gp = p;
    match p {
        Ok(cmd) => {
            let r = execute_parsed(cmd, store, now);
            assert(answered(input@, gp, old(store)@, store@, now as int, r@));
            r
        },
        Err(e) => {
            let r = error_line(&e);
            assert(answered(input@, gp, old(store)@, store@, now as int, r@));
            r
        },
    }
}

/// Parses `input` and runs it against the store at the current time.
pub fn execute_command<P: Persistence>(input: &str, store: &mut Store<P>) -> (r: String)
    requires
        old(store).wf(),
    ensures
        final(store).wf(),
        exists|now: int, p: Result<Command, FerrisError>|
            0 <= now <= MAX_INSTANT && #[trigger] answered(
                input@,
                p,
                old(store)@,
                final(store)@,
                now,
                r@,
            ),
{
    let now = now_nanos();
    let r = execute_at(input, store, now);
    let ghost p = choose|p: Result<Command, FerrisError>| #[trigger]
        answered(input@, p, old(store)@, store@, now as int, r@);
    assert(answered(input@, p, old(store)@, store@, now as int, r@));
    r
}

} // verus!
