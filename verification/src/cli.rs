//! Reading the startup configuration from an argument list. The embedding
//! process collects the process arguments (program name already dropped) and
//! hands them here as plain strings.

use crate::server_state::{Role, RoleV};
use crate::text::{find_ch, find_char, lemma_find_ch, str_eq};
use vstd::prelude::*;
use vstd::string::StrSliceExecFns;
use vstd::string::StringExecFns;

verus! {

/// The startup configuration: listen host and port (absent means a
/// default), and the node's role.
#[derive(Debug, PartialEq)]
pub struct CliArgs {
    pub host: Option<String>,
    pub port: Option<String>,
    pub role: Role,
}

/// The model of a configuration.
pub struct CliArgsV {
    pub host: Option<Seq<char>>,
    pub port: Option<Seq<char>>,
    pub role: RoleV,
}

impl View for CliArgs {
    type V = CliArgsV;

    open spec fn view(&self) -> CliArgsV {
        CliArgsV {
            host: match &self.host {
                Some(h) => Some(h@),
                None => None,
            },
            port: match &self.port {
                Some(p) => Some(p@),
                None => None,
            },
            role: self.role@,
        }
    }
}

/// Why an argument list is rejected.
#[derive(Debug, PartialEq, Eq, Clone, Copy, Structural)]
pub enum CliError {
    /// An argument is not one of `--host`, `--port`, `--replicaof`.
    UnknownOption,
    /// `--replicaof` lacks its value.
    MissingValue,
}

/// The primary a `--replicaof` value names: either one token holding host
/// and port separated by a space, or the host alone (the port then follows
/// as the next argument).
pub open spec fn split_replicaof(first: Seq<char>) -> Option<(Seq<char>, Seq<char>)> {
    match find_ch(first, ' ') {
        Some(i) => {
            let rest = first.skip(i as int + 1);
            let port = match find_ch(rest, ' ') {
                Some(j) => rest.take(j as int),
                None => rest,
            };
            Some((first.take(i as int), port))
        },
        None => None,
    }
}

/// How an argument list is read, one option at a time, folding over the
/// configuration gathered so far. An option at the very end without its
/// value leaves the corresponding field unset, as the last word of the
/// command line.
pub open spec fn parse_args_from(args: Seq<Seq<char>>, i: int, acc: CliArgsV) -> Result<
    CliArgsV,
    CliError,
>
    decreases args.len() - i,
{
    if i >= args.len() {
        Ok(acc)
    } else if args[i] == "--host"@ {
        if i + 1 < args.len() {
            parse_args_from(
                args,
                i + 2,
                CliArgsV { host: Some(args[i + 1]), port: acc.port, role: acc.role },
            )
        } else {
            Ok(CliArgsV { host: None, port: acc.port, role: acc.role })
        }
    } else if args[i] == "--port"@ {
        if i + 1 < args.len() {
            parse_args_from(
                args,
                i + 2,
                CliArgsV { host: acc.host, port: Some(args[i + 1]), role: acc.role },
            )
        } else {
            Ok(CliArgsV { host: acc.host, port: None, role: acc.role })
        }
    } else if args[i] == "--replicaof"@ {
        if i + 1 >= args.len() {
            Err(CliError::MissingValue)
        } else {
            match split_replicaof(args[i + 1]) {
                Some(hp) => parse_args_from(
                    args,
                    i + 2,
                    CliArgsV {
                        host: acc.host,
                        port: acc.port,
                        role: RoleV::Slave { master_host: hp.0, master_port: hp.1 },
                    },
                ),
                None => if i + 2 >= args.len() {
                    Err(CliError::MissingValue)
                } else {
                    parse_args_from(
                        args,
                        i + 3,
                        CliArgsV {
                            host: acc.host,
                            port: acc.port,
                            role: RoleV::Slave {
                                master_host: args[i + 1],
                                master_port: args[i + 2],
                            },
                        },
                    )
                },
            }
        }
    } else {
        Err(CliError::UnknownOption)
    }
}

/// How a whole argument list is read: starting from no host, no port, and
/// the primary role.
pub open spec fn parse_args(args: Seq<Seq<char>>) -> Result<CliArgsV, CliError> {
    parse_args_from(
        args,
        0,
        CliArgsV { host: None, port: None, role: RoleV::Master },
    )
}

impl CliArgs {
    /// Reads the startup configuration from the argument list.
    pub fn parse(args: &Vec<String>) -> (r: Result<CliArgs, CliError>)
        ensures
            match r {
                Ok(c) => parse_args(args.deep_view()) == Ok::<CliArgsV, CliError>(c@),
                Err(e) => parse_args(args.deep_view()) == Err::<CliArgsV, CliError>(e),
            },
    {
        let ghost av = args.deep_view();
        proof {
            assert(av.len() == args@.len());
            assert(forall|j: int| 0 <= j < args@.len() ==> av[j] == (#[trigger] args@[j])@);
        }
        let mut host: Option<String> = None;
        let mut port: Option<String> = None;
        let mut role: Role = Role::Master;
        let mut i: usize = 0;
        while i < args.len()
            invariant
                0 <= i <= av.len(),
                av == args.deep_view(),
                av.len() == args@.len(),
                forall|j: int| 0 <= j < args@.len() ==> av[j] == (#[trigger] args@[j])@,
                parse_args(av) == parse_args_from(
                    av,
                    i as int,
                    CliArgsV {
                        host: match host {
                            Some(h) => Some(h@),
                            None => None,
                        },
                        port: match port {
                            Some(p) => Some(p@),
                            None => None,
                        },
                        role: role@,
                    },
                ),
            decreases av.len() - i,
        {
            let arg = &args[i];
            if str_eq(arg.as_str(), "--host") {
                if i + 1 < args.len() {
                    host = Some(args[i + 1].clone());
                    i = i + 2;
                } else {
                    host = None;
                    i = i + 1;
                }
            } else if str_eq(arg.as_str(), "--port") {
                if i + 1 < args.len() {
                    port = Some(args[i + 1].clone());
                    i = i + 2;
                } else {
                    port = None;
                    i = i + 1;
                }
            } else if str_eq(arg.as_str(), "--replicaof") {
                if i + 1 >= args.len() {
                    return Err(CliError::MissingValue);
                }
                let first = &args[i + 1];
                match find_char(first.as_str(), ' ') {
                    Some(sp) => {
                        proof {
                            lemma_find_ch(first@, ' ');
                        }
                        let n = first.as_str().unicode_len();
                        let h = first.as_str().substring_char(0, sp);
                        let rest = first.as_str().substring_char(sp + 1, n);
                        proof {
                            assert(h@ =~= first@.take(sp as int));
                            assert(rest@ =~= first@.skip(sp as int + 1));
                        }
                        let p = match find_char(rest, ' ') {
                            Some(sp2) => {
                                proof {
                                    lemma_find_ch(rest@, ' ');
                                }
                                let p0 = rest.substring_char(0, sp2);
                                proof {
                                    assert(p0@ =~= rest@.take(sp2 as int));
                                }
                                p0
                            },
                            None => rest,
                        };
                        role = Role::Slave {
                            master_host: String::from_str(h),
                            master_port: String::from_str(p),
                        };
                        i = i + 2;
                    },
                    None => {
                        if i + 2 >= args.len() {
                            return Err(CliError::MissingValue);
                        }
                        role = Role::Slave {
                            master_host: first.clone(),
                            master_port: args[i + 2].clone(),
                        };
                        i = i + 3;
                    },
                }
            } else {
                return Err(CliError::UnknownOption);
            }
        }
        Ok(CliArgs { host, port, role })
    }
}

} // verus!
