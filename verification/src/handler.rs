//! Executing a command against the store and the replication state, and
//! building the reply messages.

use crate::command::{CommandV, RedisCommand, SetCommandOption};
use crate::resp::{lemma_resp_seq_view_index, resp_seq_view, RespV, RESP};
use crate::server_state::{RoleV, ServerState, ServerStateV};
use crate::store::{spec_expiry, store_lookup, EntryV, Store};
use crate::text::{dec_chars, u64_to_string};
use vstd::prelude::*;
use vstd::string::StringExecFns;

verus! {

/// The text an `INFO` reply carries: the replication block. A primary
/// reports its role, replication id and offset; a replica reports its role
/// alone.
pub open spec fn info_replication_text(st: ServerStateV) -> Seq<char> {
    match st.role {
        RoleV::Master => "role:master\nmaster_replid:"@ + st.master_replid
            + "\nmaster_repl_offset:"@ + dec_chars(st.master_repl_offset as nat),
        RoleV::Slave { .. } => "role:slave"@,
    }
}

/// The first `PSYNC` reply: the full-resync marker with the primary's
/// replication id and offset.
pub open spec fn fullresync_text(st: ServerStateV) -> Seq<char> {
    "FULLRESYNC "@ + st.master_replid + " "@ + dec_chars(st.master_repl_offset as nat)
}

/// The time to live a `SET`'s option list establishes: the last `px` wins.
pub open spec fn last_px(options: Seq<SetCommandOption>) -> Option<u128> {
    if options.len() == 0 {
        None
    } else {
        match options.last() {
            SetCommandOption::Px(x) => Some(x),
        }
    }
}

/// The replies a command produces, read against the store contents `m`, the
/// replication state `st`, the current time, and the snapshot bytes an
/// external collaborator supplies for full resync.
pub open spec fn execute_replies(
    c: CommandV,
    m: Map<Seq<char>, EntryV>,
    st: ServerStateV,
    now: u128,
    snapshot: Seq<u8>,
) -> Seq<RespV> {
    match c {
        CommandV::Ping => seq![RespV::Simple("PONG"@)],
        CommandV::Echo(s) => seq![RespV::Bulk(s)],
        CommandV::SetCmd { .. } => seq![RespV::Simple("OK"@)],
        CommandV::Get { key } => match store_lookup(m, key, now) {
            Some(v) => seq![RespV::Bulk(v)],
            None => seq![RespV::Null],
        },
        CommandV::Info { .. } => seq![RespV::Bulk(info_replication_text(st))],
        CommandV::Replconf { .. } => seq![RespV::Simple("OK"@)],
        CommandV::Psync { .. } => seq![
            RespV::Simple(fullresync_text(st)),
            RespV::Rdb(snapshot),
        ],
    }
}

/// How a command changes the store: `SET` upserts its key; every other
/// command leaves the store as it is.
pub open spec fn execute_store(c: CommandV, m: Map<Seq<char>, EntryV>, now: u128) -> Map<
    Seq<char>,
    EntryV,
> {
    match c {
        CommandV::SetCmd { key, value, options } => m.insert(
            key,
            EntryV { value, expires_at: spec_expiry(last_px(options), now) },
        ),
        _ => m,
    }
}

/// Setting a key without an expiry makes it readable: after a `SET` of `k`
/// to `v` with no options, a `GET` of `k` answers with `v`, whatever the
/// store held before and whenever the two commands run.
pub proof fn lemma_set_then_get(
    k: Seq<char>,
    v: Seq<char>,
    m: Map<Seq<char>, EntryV>,
    st: ServerStateV,
    now1: u128,
    now2: u128,
    snapshot: Seq<u8>,
)
    ensures
        execute_replies(
            CommandV::Get { key: k },
            execute_store(
                CommandV::SetCmd { key: k, value: v, options: Seq::empty() },
                m,
                now1,
            ),
            st,
            now2,
            snapshot,
        ) == seq![RespV::Bulk(v)],
{
    let m1 = execute_store(CommandV::SetCmd { key: k, value: v, options: Seq::empty() }, m, now1);
    assert(m1.contains_key(k));
    assert(m1[k] == EntryV { value: v, expires_at: spec_expiry(None, now1) });
}

/// A `SET` with `px 0` expires at once: a `GET` of the key at the set time
/// or later answers absent.
pub proof fn lemma_set_px_zero_expires(
    k: Seq<char>,
    v: Seq<char>,
    m: Map<Seq<char>, EntryV>,
    st: ServerStateV,
    now1: u128,
    now2: u128,
    snapshot: Seq<u8>,
)
    requires
        now1 <= now2,
    ensures
        execute_replies(
            CommandV::Get { key: k },
            execute_store(
                CommandV::SetCmd { key: k, value: v, options: seq![SetCommandOption::Px(0)] },
                m,
                now1,
            ),
            st,
            now2,
            snapshot,
        ) == seq![RespV::Null],
{
    let opts = seq![SetCommandOption::Px(0)];
    assert(opts.last() == SetCommandOption::Px(0));
    assert(last_px(opts) == Some(0u128));
    let m1 = execute_store(CommandV::SetCmd { key: k, value: v, options: opts }, m, now1);
    assert(m1[k].expires_at == Some(now1));
}

/// A `SET` with a positive time to live that does not overflow the clock
/// leaves the key readable at the set time: an immediate `GET` answers with
/// the value.
pub proof fn lemma_set_px_get_immediately(
    k: Seq<char>,
    v: Seq<char>,
    px: u128,
    m: Map<Seq<char>, EntryV>,
    st: ServerStateV,
    now: u128,
    snapshot: Seq<u8>,
)
    requires
        px > 0,
        now + px <= u128::MAX,
    ensures
        execute_replies(
            CommandV::Get { key: k },
            execute_store(
                CommandV::SetCmd { key: k, value: v, options: seq![SetCommandOption::Px(px)] },
                m,
                now,
            ),
            st,
            now,
            snapshot,
        ) == seq![RespV::Bulk(v)],
{
    let opts = seq![SetCommandOption::Px(px)];
    assert(opts.last() == SetCommandOption::Px(px));
    assert(last_px(opts) == Some(px));
    let m1 = execute_store(CommandV::SetCmd { key: k, value: v, options: opts }, m, now);
    assert(m1[k].expires_at == Some((now + px) as u128));
}

/// A `GET` on a key never set answers absent.
pub proof fn lemma_get_unset_absent(
    k: Seq<char>,
    st: ServerStateV,
    now: u128,
    snapshot: Seq<u8>,
)
    ensures
        execute_replies(
            CommandV::Get { key: k },
            Map::<Seq<char>, EntryV>::empty(),
            st,
            now,
            snapshot,
        ) == seq![RespV::Null],
{
    assert(!Map::<Seq<char>, EntryV>::empty().contains_key(k));
}

/// The replication block an `INFO` command is answered with.
pub fn handle_redis_command_info_replication(state: &ServerState) -> (r: Vec<RESP>)
    ensures
        resp_seq_view(r@) == seq![RespV::Bulk(info_replication_text(state@))],
{
    let reply = match &state.role {
        crate::server_state::Role::Master => {
            let mut s = String::from_str("role:master\nmaster_replid:");
            s.append(state.master_replid.as_str());
            s.append("\nmaster_repl_offset:");
            let off = u64_to_string(state.master_repl_offset);
            s.append(off.as_str());
            RESP::BulkStrings(s)
        },
        crate::server_state::Role::Slave { .. } => RESP::bulk_strings("role:slave"),
    };
    let ghost rv = reply@;
    let mut out: Vec<RESP> = Vec::new();
    out.push(reply);
    proof {
        lemma_resp_seq_view_index(out@);
        assert(resp_seq_view(out@) =~= seq![rv]);
        assert(rv == RespV::Bulk(info_replication_text(state@)));
    }
    out
}

/// Executes one command: mutates the store as the command asks and returns
/// the replies to send, in order.
pub fn handle_redis_command(
    command: RedisCommand,
    store: &mut Store,
    state: &ServerState,
    now: u128,
    snapshot: &[u8],
) -> (r: Vec<RESP>)
    requires
        old(store).wf(),
    ensures
        final(store).wf(),
        resp_seq_view(r@) == execute_replies(command@, old(store)@, state@, now, snapshot@),
        final(store)@ == execute_store(command@, old(store)@, now),
{
    let ghost cv = command@;
    match command {
        RedisCommand::Ping => {
            let mut out: Vec<RESP> = Vec::new();
            out.push(RESP::simple_string("PONG"));
            proof {
                lemma_resp_seq_view_index(out@);
                assert(resp_seq_view(out@) =~= seq![RespV::Simple("PONG"@)]);
            }
            out
        },
        RedisCommand::Echo(s) => {
            let ghost sv = s@;
            let mut out: Vec<RESP> = Vec::new();
            out.push(RESP::BulkStrings(s));
            proof {
                lemma_resp_seq_view_index(out@);
                assert(resp_seq_view(out@) =~= seq![RespV::Bulk(sv)]);
            }
            out
        },
        RedisCommand::SetCmd { key, value, options } => {
            let ghost ov = options@;
            let mut px: Option<u128> = None;
            let mut i: usize = 0;
            while i < options.len()
                invariant
                    0 <= i <= options@.len(),
                    options@ == ov,
                    px == last_px(ov.take(i as int)),
                decreases options@.len() - i,
            {
                match options[i] {
                    SetCommandOption::Px(x) => {
                        px = Some(x);
                    },
                }
                proof {
                    assert(ov.take(i as int + 1).last() == ov[i as int]);
                }
                i += 1;
            }
            proof {
                assert(ov.take(ov.len() as int) =~= ov);
            }
            crate::store::set(store, key.as_str(), value.as_str(), px, now);
            let mut out: Vec<RESP> = Vec::new();
            out.push(RESP::simple_string("OK"));
            proof {
                lemma_resp_seq_view_index(out@);
                assert(resp_seq_view(out@) =~= seq![RespV::Simple("OK"@)]);
            }
            out
        },
        RedisCommand::Get { key } => {
            let mut out: Vec<RESP> = Vec::new();
            match crate::store::get(store, key.as_str(), now) {
                Some(v) => {
                    let ghost vv = v@;
                    out.push(RESP::BulkStrings(v));
                    proof {
                        lemma_resp_seq_view_index(out@);
                        assert(resp_seq_view(out@) =~= seq![RespV::Bulk(vv)]);
                    }
                },
                None => {
                    out.push(RESP::NullBulkStrings);
                    proof {
                        lemma_resp_seq_view_index(out@);
                        assert(resp_seq_view(out@) =~= seq![RespV::Null]);
                    }
                },
            }
            out
        },
        RedisCommand::Info { .. } => handle_redis_command_info_replication(state),
        RedisCommand::Replconf { .. } => {
            let mut out: Vec<RESP> = Vec::new();
            out.push(RESP::simple_string("OK"));
            proof {
                lemma_resp_seq_view_index(out@);
                assert(resp_seq_view(out@) =~= seq![RespV::Simple("OK"@)]);
            }
            out
        },
        RedisCommand::Psync { .. } => {
            let mut s = String::from_str("FULLRESYNC ");
            s.append(state.master_replid.as_str());
            s.append(" ");
            let off = u64_to_string(state.master_repl_offset);
            s.append(off.as_str());
            let mut out: Vec<RESP> = Vec::new();
            out.push(RESP::SimpleString(s));
            out.push(RESP::Rdb(vstd::slice::slice_to_vec(snapshot)));
            proof {
                lemma_resp_seq_view_index(out@);
                assert(resp_seq_view(out@) =~= seq![
                    RespV::Simple(fullresync_text(state@)),
                    RespV::Rdb(snapshot@),
                ]);
            }
            out
        },
    }
}

} // verus!
