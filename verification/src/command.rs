//! The command model: interpreting a decoded protocol message as a typed
//! command, and writing a command back as a message.

use crate::resp::{
    lemma_resp_seq_view_index, lemma_resp_seq_view_push, resp_seq_view, RespV, RESP,
};
use crate::text::{
    dec_chars, dec_value_chars, i64_to_string, int_dec_chars, int_value_chars, parse_i64,
    parse_u128, str_eq, u128_to_string,
};
use vstd::prelude::*;

verus! {

/// A typed command, as carried by a client request.
#[derive(Debug, PartialEq)]
pub enum RedisCommand {
    Echo(String),
    Ping,
    SetCmd { key: String, value: String, options: Vec<SetCommandOption> },
    Get { key: String },
    Info { section: InfoSection },
    Replconf { command: ReplconfCommand },
    Psync { master_replid: String, master_repl_offset: i64 },
}

/// A `SET` option: `Px` is the time to live in milliseconds.
#[derive(Debug, PartialEq, Eq, Clone, Copy, Structural)]
pub enum SetCommandOption {
    Px(u128),
}

#[derive(Debug, PartialEq, Eq, Clone, Copy, Structural)]
pub enum InfoSection {
    All,
    Replication,
}

#[derive(Debug, PartialEq)]
pub enum ReplconfCommand {
    ListeningPort(String),
    Capa(String),
}

/// Why a message is not a command.
#[derive(Debug, PartialEq, Eq, Clone, Copy, Structural)]
pub enum CommandError {
    /// The message is not an array of the required shape: a command name
    /// followed by bulk-string arguments, none missing.
    WrongShape,
    /// The command name is not one this node serves.
    UnknownCommand,
    /// A `SET` option is not the literal `px`.
    UnknownOption,
    /// An `INFO` section is not `replication`.
    UnknownSection,
    /// A `REPLCONF` subcommand is not `listening-port` or `capa`.
    UnknownSubcommand,
    /// A numeric argument is not a decimal number the machine can hold.
    BadNumber,
}

/// The model of a `REPLCONF` argument.
pub enum ReplconfV {
    ListeningPort(Seq<char>),
    Capa(Seq<char>),
}

/// The mathematical model of a command.
pub enum CommandV {
    Echo(Seq<char>),
    Ping,
    SetCmd { key: Seq<char>, value: Seq<char>, options: Seq<SetCommandOption> },
    Get { key: Seq<char> },
    Info { section: InfoSection },
    Replconf { command: ReplconfV },
    Psync { master_replid: Seq<char>, master_repl_offset: i64 },
}

impl View for ReplconfCommand {
    type V = ReplconfV;

    open spec fn view(&self) -> ReplconfV {
        match self {
            ReplconfCommand::ListeningPort(p) => ReplconfV::ListeningPort(p@),
            ReplconfCommand::Capa(c) => ReplconfV::Capa(c@),
        }
    }
}

impl View for RedisCommand {
    type V = CommandV;

    open spec fn view(&self) -> CommandV {
        match self {
            RedisCommand::Echo(s) => CommandV::Echo(s@),
            RedisCommand::Ping => CommandV::Ping,
            RedisCommand::SetCmd { key, value, options } => CommandV::SetCmd {
                key: key@,
                value: value@,
                options: options@,
            },
            RedisCommand::Get { key } => CommandV::Get { key: key@ },
            RedisCommand::Info { section } => CommandV::Info { section: *section },
            RedisCommand::Replconf { command } => CommandV::Replconf { command: command@ },
            RedisCommand::Psync { master_replid, master_repl_offset } => CommandV::Psync {
                master_replid: master_replid@,
                master_repl_offset: *master_repl_offset,
            },
        }
    }
}

/// The text of a message that can name a command: a bulk or simple string.
pub open spec fn msg_text(m: RespV) -> Option<Seq<char>> {
    match m {
        RespV::Bulk(s) => Some(s),
        RespV::Simple(s) => Some(s),
        _ => None,
    }
}

/// The text of a message that can stand as an argument: a bulk string.
pub open spec fn msg_bulk(m: RespV) -> Option<Seq<char>> {
    match m {
        RespV::Bulk(s) => Some(s),
        _ => None,
    }
}

/// How an argument list from `i` on is read as `SET` options: `px` tokens
/// each followed by a decimal millisecond count.
pub open spec fn parse_set_options(elems: Seq<RespV>, i: int) -> Result<
    Seq<SetCommandOption>,
    CommandError,
>
    decreases elems.len() - i,
{
    if i >= elems.len() {
        Ok(Seq::empty())
    } else if i + 1 >= elems.len() {
        Err(CommandError::WrongShape)
    } else {
        match msg_bulk(elems[i]) {
            Some(opt) => match msg_bulk(elems[i + 1]) {
                Some(v) => match parse_option(opt, v) {
                    Ok(o) => match parse_set_options(elems, i + 2) {
                        Ok(rest) => Ok(seq![o] + rest),
                        Err(e) => Err(e),
                    },
                    Err(e) => Err(e),
                },
                None => Err(CommandError::WrongShape),
            },
            None => Err(CommandError::WrongShape),
        }
    }
}

/// How an `INFO` section argument is read.
pub open spec fn parse_section(arg: Option<Seq<char>>) -> Result<InfoSection, CommandError> {
    match arg {
        None => Ok(InfoSection::All),
        Some(s) => if s == "replication"@ {
            Ok(InfoSection::Replication)
        } else {
            Err(CommandError::UnknownSection)
        },
    }
}

/// How a `SET` option token and its value are read.
pub open spec fn parse_option(opt: Seq<char>, v: Seq<char>) -> Result<
    SetCommandOption,
    CommandError,
> {
    if opt == "px"@ {
        match dec_value_chars(v) {
            Some(x) => if x <= u128::MAX {
                Ok(SetCommandOption::Px(x as u128))
            } else {
                Err(CommandError::BadNumber)
            },
            None => Err(CommandError::BadNumber),
        }
    } else {
        Err(CommandError::UnknownOption)
    }
}

/// How a `REPLCONF` subcommand and its argument are read.
pub open spec fn parse_replconf(sub: Seq<char>, arg: Seq<char>) -> Result<
    ReplconfV,
    CommandError,
> {
    if sub == "listening-port"@ {
        Ok(ReplconfV::ListeningPort(arg))
    } else if sub == "capa"@ {
        Ok(ReplconfV::Capa(arg))
    } else {
        Err(CommandError::UnknownSubcommand)
    }
}

/// How a decoded message is read as a command: an array whose first element
/// names the command (upper-case, exact), the rest its arguments. Arguments
/// past those a command takes are ignored.
pub open spec fn parse_command(m: RespV) -> Result<CommandV, CommandError> {
    match m {
        RespV::Arr(elems) => if elems.len() == 0 {
            Err(CommandError::WrongShape)
        } else {
            match msg_text(elems[0]) {
                Some(name) => if name == "PING"@ {
                    Ok(CommandV::Ping)
                } else if name == "ECHO"@ {
                    if elems.len() < 2 {
                        Err(CommandError::WrongShape)
                    } else {
                        match msg_bulk(elems[1]) {
                            Some(s) => Ok(CommandV::Echo(s)),
                            None => Err(CommandError::WrongShape),
                        }
                    }
                } else if name == "SET"@ {
                    if elems.len() < 3 {
                        Err(CommandError::WrongShape)
                    } else {
                        match msg_bulk(elems[1]) {
                            Some(key) => match msg_bulk(elems[2]) {
                                Some(value) => match parse_set_options(elems, 3) {
                                    Ok(options) => Ok(CommandV::SetCmd { key, value, options }),
                                    Err(e) => Err(e),
                                },
                                None => Err(CommandError::WrongShape),
                            },
                            None => Err(CommandError::WrongShape),
                        }
                    }
                } else if name == "GET"@ {
                    if elems.len() < 2 {
                        Err(CommandError::WrongShape)
                    } else {
                        match msg_bulk(elems[1]) {
                            Some(key) => Ok(CommandV::Get { key }),
                            None => Err(CommandError::WrongShape),
                        }
                    }
                } else if name == "INFO"@ {
                    if elems.len() < 2 {
                        Ok(CommandV::Info { section: InfoSection::All })
                    } else {
                        match msg_bulk(elems[1]) {
                            Some(s) => match parse_section(Some(s)) {
                                Ok(section) => Ok(CommandV::Info { section }),
                                Err(e) => Err(e),
                            },
                            None => Err(CommandError::WrongShape),
                        }
                    }
                } else if name == "REPLCONF"@ {
                    if elems.len() < 3 {
                        Err(CommandError::WrongShape)
                    } else {
                        match msg_bulk(elems[1]) {
                            Some(sub) => match msg_bulk(elems[2]) {
                                Some(arg) => match parse_replconf(sub, arg) {
                                    Ok(command) => Ok(CommandV::Replconf { command }),
                                    Err(e) => Err(e),
                                },
                                None => Err(CommandError::WrongShape),
                            },
                            None => Err(CommandError::WrongShape),
                        }
                    }
                } else if name == "PSYNC"@ {
                    if elems.len() < 3 {
                        Err(CommandError::WrongShape)
                    } else {
                        match msg_bulk(elems[1]) {
                            Some(replid) => match msg_bulk(elems[2]) {
                                Some(off) => match int_value_chars(off) {
                                    Some(x) => if i64::MIN <= x <= i64::MAX {
                                        Ok(
                                            CommandV::Psync {
                                                master_replid: replid,
                                                master_repl_offset: x as i64,
                                            },
                                        )
                                    } else {
                                        Err(CommandError::BadNumber)
                                    },
                                    None => Err(CommandError::BadNumber),
                                },
                                None => Err(CommandError::WrongShape),
                            },
                            None => Err(CommandError::WrongShape),
                        }
                    }
                } else {
                    Err(CommandError::UnknownCommand)
                },
                None => Err(CommandError::WrongShape),
            }
        },
        _ => Err(CommandError::WrongShape),
    }
}

/// The message a command is written back as: an array of bulk strings, the
/// command name first.
pub open spec fn command_resp(c: CommandV) -> RespV {
    match c {
        CommandV::Ping => RespV::Arr(seq![RespV::Bulk("PING"@)]),
        CommandV::Echo(s) => RespV::Arr(seq![RespV::Bulk("ECHO"@), RespV::Bulk(s)]),
        CommandV::SetCmd { key, value, options } => RespV::Arr(
            seq![RespV::Bulk("SET"@), RespV::Bulk(key), RespV::Bulk(value)] + options_resp(
                options,
            ),
        ),
        CommandV::Get { key } => RespV::Arr(seq![RespV::Bulk("GET"@), RespV::Bulk(key)]),
        CommandV::Info { section } => match section {
            InfoSection::All => RespV::Arr(seq![RespV::Bulk("INFO"@)]),
            InfoSection::Replication => RespV::Arr(
                seq![RespV::Bulk("INFO"@), RespV::Bulk("replication"@)],
            ),
        },
        CommandV::Replconf { command } => match command {
            ReplconfV::ListeningPort(p) => RespV::Arr(
                seq![
                    RespV::Bulk("REPLCONF"@),
                    RespV::Bulk("listening-port"@),
                    RespV::Bulk(p),
                ],
            ),
            ReplconfV::Capa(cp) => RespV::Arr(
                seq![RespV::Bulk("REPLCONF"@), RespV::Bulk("capa"@), RespV::Bulk(cp)],
            ),
        },
        CommandV::Psync { master_replid, master_repl_offset } => RespV::Arr(
            seq![
                RespV::Bulk("PSYNC"@),
                RespV::Bulk(master_replid),
                RespV::Bulk(int_dec_chars(master_repl_offset as int)),
            ],
        ),
    }
}

/// The option pairs of a `SET` message: `px` and the decimal milliseconds,
/// in order.
pub open spec fn options_resp(opts: Seq<SetCommandOption>) -> Seq<RespV>
    decreases opts.len(),
{
    if opts.len() == 0 {
        Seq::empty()
    } else {
        let px = match opts[0] {
            SetCommandOption::Px(x) => x,
        };
        seq![RespV::Bulk("px"@), RespV::Bulk(dec_chars(px as nat))] + options_resp(
            opts.drop_first(),
        )
    }
}

pub proof fn lemma_options_resp_push(opts: Seq<SetCommandOption>, x: SetCommandOption)
    ensures
        options_resp(opts.push(x)) == options_resp(opts) + options_resp(seq![x]),
    decreases opts,
{
    let p = opts.push(x);
    if opts.len() == 0 {
        assert(p[0] == x);
        assert(p.drop_first() =~= Seq::<SetCommandOption>::empty());
        assert(seq![x][0] == x);
        assert(seq![x].drop_first() =~= Seq::<SetCommandOption>::empty());
        assert(options_resp(p) =~= options_resp(opts) + options_resp(seq![x]));
    } else {
        assert(p.drop_first() =~= opts.drop_first().push(x));
        lemma_options_resp_push(opts.drop_first(), x);
        assert(p[0] == opts[0]);
        assert(options_resp(p) =~= options_resp(opts) + options_resp(seq![x]));
    }
}

/// The model of a parse result.
pub open spec fn cmd_result_view(r: Result<RedisCommand, CommandError>) -> Result<
    CommandV,
    CommandError,
> {
    match r {
        Ok(c) => Ok(c@),
        Err(e) => Err(e),
    }
}

/// The bulk-string argument at `i`, where one is required.
fn bulk_arg<'a>(a: &'a Vec<RESP>, i: usize) -> (r: Option<&'a String>)
    requires
        i < a@.len(),
    ensures
        match r {
            Some(s) => msg_bulk(resp_seq_view(a@)[i as int]) == Some(s@),
            None => msg_bulk(resp_seq_view(a@)[i as int]) is None,
        },
{
    proof {
        lemma_resp_seq_view_index(a@);
    }
    match &a[i] {
        RESP::BulkStrings(s) => Some(s),
        _ => None,
    }
}

impl SetCommandOption {
    /// Reads one `SET` option pair.
    pub fn new(option: &str, value: &str) -> (r: Result<SetCommandOption, CommandError>)
        ensures
            r == parse_option(option@, value@),
    {
        if str_eq(option, "px") {
            match parse_u128(value) {
                Some(x) => Ok(SetCommandOption::Px(x)),
                None => Err(CommandError::BadNumber),
            }
        } else {
            Err(CommandError::UnknownOption)
        }
    }
}

impl InfoSection {
    /// Reads an `INFO` section argument; absent means `all`.
    pub fn new(maybe_str: Option<&str>) -> (r: Result<InfoSection, CommandError>)
        ensures
            r == parse_section(
                match maybe_str {
                    Some(s) => Some(s@),
                    None => None,
                },
            ),
    {
        match maybe_str {
            None => Ok(InfoSection::All),
            Some(s) => {
                if str_eq(s, "replication") {
                    Ok(InfoSection::Replication)
                } else {
                    Err(CommandError::UnknownSection)
                }
            },
        }
    }
}

impl ReplconfCommand {
    /// Reads a `REPLCONF` subcommand and its argument.
    pub fn new(command: &str, arg: &str) -> (r: Result<ReplconfCommand, CommandError>)
        ensures
            match r {
                Ok(c) => parse_replconf(command@, arg@) == Ok::<ReplconfV, CommandError>(c@),
                Err(e) => parse_replconf(command@, arg@) == Err::<ReplconfV, CommandError>(e),
            },
    {
        if str_eq(command, "listening-port") {
            Ok(ReplconfCommand::ListeningPort(arg.to_owned()))
        } else if str_eq(command, "capa") {
            Ok(ReplconfCommand::Capa(arg.to_owned()))
        } else {
            Err(CommandError::UnknownSubcommand)
        }
    }
}

impl RedisCommand {
    /// Reads a decoded message as a command.
    pub fn new(resp: RESP) -> (r: Result<RedisCommand, CommandError>)
        ensures
            cmd_result_view(r) == parse_command(resp@),
    {
        match resp {
            RESP::Array(a) => {
                proof {
                    lemma_resp_seq_view_index(a@);
                }
                let ghost ev = resp_seq_view(a@);
                if a.len() == 0 {
                    return Err(CommandError::WrongShape);
                }
                let name: &String = match &a[0] {
                    RESP::BulkStrings(s) => s,
                    RESP::SimpleString(s) => s,
                    _ => {
                        return Err(CommandError::WrongShape);
                    },
                };
                assert(msg_text(ev[0]) == Some(name@));
                if str_eq(name.as_str(), "PING") {
                    Ok(RedisCommand::Ping)
                } else if str_eq(name.as_str(), "ECHO") {
                    Self::new_echo(&a)
                } else if str_eq(name.as_str(), "SET") {
                    Self::new_set(&a)
                } else if str_eq(name.as_str(), "GET") {
                    Self::new_get(&a)
                } else if str_eq(name.as_str(), "INFO") {
                    Self::new_info(&a)
                } else if str_eq(name.as_str(), "REPLCONF") {
                    Self::new_replconf(&a)
                } else if str_eq(name.as_str(), "PSYNC") {
                    Self::new_psync(&a)
                } else {
                    Err(CommandError::UnknownCommand)
                }
            },
            _ => Err(CommandError::WrongShape),
        }
    }

    fn new_echo(a: &Vec<RESP>) -> (r: Result<RedisCommand, CommandError>)
        ensures
            cmd_result_view(r) == ({
                let elems = resp_seq_view(a@);
                if elems.len() < 2 {
                    Err::<CommandV, CommandError>(CommandError::WrongShape)
                } else {
                    match msg_bulk(elems[1]) {
                        Some(s) => Ok(CommandV::Echo(s)),
                        None => Err(CommandError::WrongShape),
                    }
                }
            }),
    {
        proof {
            lemma_resp_seq_view_index(a@);
        }
        if a.len() < 2 {
            return Err(CommandError::WrongShape);
        }
        match bulk_arg(a, 1) {
            Some(s) => Ok(RedisCommand::Echo(s.clone())),
            None => Err(CommandError::WrongShape),
        }
    }

    fn new_set(a: &Vec<RESP>) -> (r: Result<RedisCommand, CommandError>)
        ensures
            cmd_result_view(r) == ({
                let elems = resp_seq_view(a@);
                if elems.len() < 3 {
                    Err::<CommandV, CommandError>(CommandError::WrongShape)
                } else {
                    match msg_bulk(elems[1]) {
                        Some(key) => match msg_bulk(elems[2]) {
                            Some(value) => match parse_set_options(elems, 3) {
                                Ok(options) => Ok(CommandV::SetCmd { key, value, options }),
                                Err(e) => Err(e),
                            },
                            None => Err(CommandError::WrongShape),
                        },
                        None => Err(CommandError::WrongShape),
                    }
                }
            }),
    {
        proof {
            lemma_resp_seq_view_index(a@);
        }
        let ghost ev = resp_seq_view(a@);
        if a.len() < 3 {
            return Err(CommandError::WrongShape);
        }
        let key = match bulk_arg(a, 1) {
            Some(s) => s.clone(),
            None => {
                return Err(CommandError::WrongShape);
            },
        };
        let value = match bulk_arg(a, 2) {
            Some(s) => s.clone(),
            None => {
                return Err(CommandError::WrongShape);
            },
        };
        let mut options: Vec<SetCommandOption> = Vec::new();
        let mut i: usize = 3;
        while i < a.len()
            invariant
                3 <= i,
                ev == resp_seq_view(a@),
                ev.len() == a@.len(),
                ev.len() >= 3,
                msg_bulk(ev[1]) == Some(key@),
                msg_bulk(ev[2]) == Some(value@),
                forall|j: int| 0 <= j < a@.len() ==> ev[j] == (#[trigger] a@[j])@,
                match parse_set_options(ev, i as int) {
                    Ok(rest) => parse_set_options(ev, 3) == Ok::<
                        Seq<SetCommandOption>,
                        CommandError,
                    >(options@ + rest),
                    Err(e) => parse_set_options(ev, 3) == Err::<
                        Seq<SetCommandOption>,
                        CommandError,
                    >(e),
                },
            decreases a@.len() - i,
        {
            if i + 1 >= a.len() {
                return Err(CommandError::WrongShape);
            }
            let opt = match bulk_arg(a, i) {
                Some(s) => s,
                None => {
                    return Err(CommandError::WrongShape);
                },
            };
            let v = match bulk_arg(a, i + 1) {
                Some(s) => s,
                None => {
                    return Err(CommandError::WrongShape);
                },
            };
            match SetCommandOption::new(opt.as_str(), v.as_str()) {
                Ok(o) => {
                    proof {
                        match parse_set_options(ev, i + 2) {
                            Ok(rest) => {
                                assert(options@ + (seq![o] + rest) =~= options@.push(o) + rest);
                            },
                            Err(_) => {},
                        }
                    }
                    options.push(o);
                },
                Err(e) => {
                    return Err(e);
                },
            }
            i = i + 2;
        }
        proof {
            assert(parse_set_options(ev, i as int) == Ok::<Seq<SetCommandOption>, CommandError>(
                Seq::empty(),
            ));
            assert(options@ + Seq::<SetCommandOption>::empty() =~= options@);
        }
        Ok(RedisCommand::SetCmd { key, value, options })
    }

    fn new_get(a: &Vec<RESP>) -> (r: Result<RedisCommand, CommandError>)
        ensures
            cmd_result_view(r) == ({
                let elems = resp_seq_view(a@);
                if elems.len() < 2 {
                    Err::<CommandV, CommandError>(CommandError::WrongShape)
                } else {
                    match msg_bulk(elems[1]) {
                        Some(key) => Ok(CommandV::Get { key }),
                        None => Err(CommandError::WrongShape),
                    }
                }
            }),
    {
        proof {
            lemma_resp_seq_view_index(a@);
        }
        if a.len() < 2 {
            return Err(CommandError::WrongShape);
        }
        match bulk_arg(a, 1) {
            Some(s) => Ok(RedisCommand::Get { key: s.clone() }),
            None => Err(CommandError::WrongShape),
        }
    }

    fn new_info(a: &Vec<RESP>) -> (r: Result<RedisCommand, CommandError>)
        ensures
            cmd_result_view(r) == ({
                let elems = resp_seq_view(a@);
                if elems.len() < 2 {
                    Ok::<CommandV, CommandError>(CommandV::Info { section: InfoSection::All })
                } else {
                    match msg_bulk(elems[1]) {
                        Some(s) => match parse_section(Some(s)) {
                            Ok(section) => Ok(CommandV::Info { section }),
                            Err(e) => Err(e),
                        },
                        None => Err(CommandError::WrongShape),
                    }
                }
            }),
    {
        proof {
            lemma_resp_seq_view_index(a@);
        }
        if a.len() < 2 {
            return Ok(RedisCommand::Info { section: InfoSection::All });
        }
        match bulk_arg(a, 1) {
            Some(s) => match InfoSection::new(Some(s.as_str())) {
                Ok(section) => Ok(RedisCommand::Info { section }),
                Err(e) => Err(e),
            },
            None => Err(CommandError::WrongShape),
        }
    }

    fn new_replconf(a: &Vec<RESP>) -> (r: Result<RedisCommand, CommandError>)
        ensures
            cmd_result_view(r) == ({
                let elems = resp_seq_view(a@);
                if elems.len() < 3 {
                    Err::<CommandV, CommandError>(CommandError::WrongShape)
                } else {
                    match msg_bulk(elems[1]) {
                        Some(sub) => match msg_bulk(elems[2]) {
                            Some(arg) => match parse_replconf(sub, arg) {
                                Ok(command) => Ok(CommandV::Replconf { command }),
                                Err(e) => Err(e),
                            },
                            None => Err(CommandError::WrongShape),
                        },
                        None => Err(CommandError::WrongShape),
                    }
                }
            }),
    {
        proof {
            lemma_resp_seq_view_index(a@);
        }
        if a.len() < 3 {
            return Err(CommandError::WrongShape);
        }
        let sub = match bulk_arg(a, 1) {
            Some(s) => s,
            None => {
                return Err(CommandError::WrongShape);
            },
        };
        let arg = match bulk_arg(a, 2) {
            Some(s) => s,
            None => {
                return Err(CommandError::WrongShape);
            },
        };
        match ReplconfCommand::new(sub.as_str(), arg.as_str()) {
            Ok(command) => Ok(RedisCommand::Replconf { command }),
            Err(e) => Err(e),
        }
    }

    fn new_psync(a: &Vec<RESP>) -> (r: Result<RedisCommand, CommandError>)
        ensures
            cmd_result_view(r) == ({
                let elems = resp_seq_view(a@);
                if elems.len() < 3 {
                    Err::<CommandV, CommandError>(CommandError::WrongShape)
                } else {
                    match msg_bulk(elems[1]) {
                        Some(replid) => match msg_bulk(elems[2]) {
                            Some(off) => match int_value_chars(off) {
                                Some(x) => if i64::MIN <= x <= i64::MAX {
                                    Ok(
                                        CommandV::Psync {
                                            master_replid: replid,
                                            master_repl_offset: x as i64,
                                        },
                                    )
                                } else {
                                    Err(CommandError::BadNumber)
                                },
                                None => Err(CommandError::BadNumber),
                            },
                            None => Err(CommandError::WrongShape),
                        },
                        None => Err(CommandError::WrongShape),
                    }
                }
            }),
    {
        proof {
            lemma_resp_seq_view_index(a@);
        }
        if a.len() < 3 {
            return Err(CommandError::WrongShape);
        }
        let replid = match bulk_arg(a, 1) {
            Some(s) => s,
            None => {
                return Err(CommandError::WrongShape);
            },
        };
        let off = match bulk_arg(a, 2) {
            Some(s) => s,
            None => {
                return Err(CommandError::WrongShape);
            },
        };
        match parse_i64(off.as_str()) {
            Some(x) => Ok(
                RedisCommand::Psync { master_replid: replid.clone(), master_repl_offset: x },
            ),
            None => Err(CommandError::BadNumber),
        }
    }

    /// Writes the command back as the message that carries it.
    pub fn to_resp(self) -> (r: RESP)
        ensures
            r@ == command_resp(self@),
    {
        let ghost cv = self@;
        match self {
            RedisCommand::Ping => {
                let mut v: Vec<RESP> = Vec::new();
                v.push(RESP::bulk_strings("PING"));
                proof {
                    lemma_resp_seq_view_index(v@);
                    assert(resp_seq_view(v@) =~= seq![RespV::Bulk("PING"@)]);
                }
                RESP::Array(v)
            },
            RedisCommand::Echo(s) => {
                let mut v: Vec<RESP> = Vec::new();
                let ghost sv = s@;
                v.push(RESP::bulk_strings("ECHO"));
                v.push(RESP::BulkStrings(s));
                proof {
                    lemma_resp_seq_view_index(v@);
                    assert(resp_seq_view(v@) =~= seq![RespV::Bulk("ECHO"@), RespV::Bulk(sv)]);
                }
                RESP::Array(v)
            },
            RedisCommand::SetCmd { key, value, options } => {
                let mut v: Vec<RESP> = Vec::new();
                let ghost kv = key@;
                let ghost vv = value@;
                let ghost ov = options@;
                v.push(RESP::bulk_strings("SET"));
                v.push(RESP::BulkStrings(key));
                v.push(RESP::BulkStrings(value));
                let ghost head = seq![RespV::Bulk("SET"@), RespV::Bulk(kv), RespV::Bulk(vv)];
                proof {
                    lemma_resp_seq_view_index(v@);
                    assert(resp_seq_view(v@) =~= head + options_resp(ov.take(0)));
                }
                let mut k: usize = 0;
                while k < options.len()
                    invariant
                        0 <= k <= options@.len(),
                        options@ == ov,
                        resp_seq_view(v@) == head + options_resp(ov.take(k as int)),
                    decreases options@.len() - k,
                {
                    let px = match options[k] {
                        SetCommandOption::Px(x) => x,
                    };
                    assert(ov[k as int] == SetCommandOption::Px(px));
                    let e1 = RESP::bulk_strings("px");
                    let e2 = RESP::BulkStrings(u128_to_string(px));
                    let ghost e1v = e1@;
                    let ghost e2v = e2@;
                    let ghost before = v@;
                    v.push(e1);
                    v.push(e2);
                    proof {
                        lemma_resp_seq_view_push(before, before.push(e1)[before.len() as int]);
                        lemma_resp_seq_view_push(
                            before.push(before.push(e1)[before.len() as int]),
                            v@[before.len() as int + 1],
                        );
                        lemma_options_resp_push(ov.take(k as int), ov[k as int]);
                        assert(ov.take(k as int).push(ov[k as int]) =~= ov.take(k as int + 1));
                        assert(seq![ov[k as int]].drop_first() =~= Seq::<
                            SetCommandOption,
                        >::empty());
                        assert(options_resp(Seq::<SetCommandOption>::empty())
                            == Seq::<RespV>::empty());
                        assert(options_resp(seq![ov[k as int]].drop_first())
                            == Seq::<RespV>::empty());
                        assert(options_resp(seq![ov[k as int]]) =~= seq![
                            RespV::Bulk("px"@),
                            RespV::Bulk(dec_chars(px as nat)),
                        ]);
                        assert(e1v == RespV::Bulk("px"@));
                        assert(e2v == RespV::Bulk(dec_chars(px as nat)));
                        assert(resp_seq_view(v@) =~= head + options_resp(ov.take(k as int + 1)));
                    }
                    k = k + 1;
                }
                proof {
                    assert(ov.take(ov.len() as int) =~= ov);
                }
                RESP::Array(v)
            },
            RedisCommand::Get { key } => {
                let mut v: Vec<RESP> = Vec::new();
                let ghost kv = key@;
                v.push(RESP::bulk_strings("GET"));
                v.push(RESP::BulkStrings(key));
                proof {
                    lemma_resp_seq_view_index(v@);
                    assert(resp_seq_view(v@) =~= seq![RespV::Bulk("GET"@), RespV::Bulk(kv)]);
                }
                RESP::Array(v)
            },
            RedisCommand::Info { section } => {
                let mut v: Vec<RESP> = Vec::new();
                v.push(RESP::bulk_strings("INFO"));
                match section {
                    InfoSection::All => {
                        proof {
                            lemma_resp_seq_view_index(v@);
                            assert(resp_seq_view(v@) =~= seq![RespV::Bulk("INFO"@)]);
                        }
                    },
                    InfoSection::Replication => {
                        v.push(RESP::bulk_strings("replication"));
                        proof {
                            lemma_resp_seq_view_index(v@);
                            assert(resp_seq_view(v@) =~= seq![
                                RespV::Bulk("INFO"@),
                                RespV::Bulk("replication"@),
                            ]);
                        }
                    },
                }
                RESP::Array(v)
            },
            RedisCommand::Replconf { command } => {
                let mut v: Vec<RESP> = Vec::new();
                v.push(RESP::bulk_strings("REPLCONF"));
                match command {
                    ReplconfCommand::ListeningPort(p) => {
                        let ghost pv = p@;
                        v.push(RESP::bulk_strings("listening-port"));
                        v.push(RESP::BulkStrings(p));
                        proof {
                            lemma_resp_seq_view_index(v@);
                            assert(resp_seq_view(v@) =~= seq![
                                RespV::Bulk("REPLCONF"@),
                                RespV::Bulk("listening-port"@),
                                RespV::Bulk(pv),
                            ]);
                        }
                    },
                    ReplconfCommand::Capa(c) => {
                        let ghost cvw = c@;
                        v.push(RESP::bulk_strings("capa"));
                        v.push(RESP::BulkStrings(c));
                        proof {
                            lemma_resp_seq_view_index(v@);
                            assert(resp_seq_view(v@) =~= seq![
                                RespV::Bulk("REPLCONF"@),
                                RespV::Bulk("capa"@),
                                RespV::Bulk(cvw),
                            ]);
                        }
                    },
                }
                RESP::Array(v)
            },
            RedisCommand::Psync { master_replid, master_repl_offset } => {
                let mut v: Vec<RESP> = Vec::new();
                let ghost rv = master_replid@;
                v.push(RESP::bulk_strings("PSYNC"));
                v.push(RESP::BulkStrings(master_replid));
                v.push(RESP::BulkStrings(i64_to_string(master_repl_offset)));
                proof {
                    lemma_resp_seq_view_index(v@);
                    assert(resp_seq_view(v@) =~= seq![
                        RespV::Bulk("PSYNC"@),
                        RespV::Bulk(rv),
                        RespV::Bulk(int_dec_chars(master_repl_offset as int)),
                    ]);
                }
                RESP::Array(v)
            },
        }
    }
}

} // verus!
