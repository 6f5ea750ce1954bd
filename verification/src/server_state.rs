//! The node's replication state: its role (primary, or replica of a given
//! primary) and its replication identity and offset. The state is a typed
//! in-memory value handed to the command model; it does not share the
//! key-value store's namespace.

use crate::text::{find_ch, find_char, lemma_find_ch, lemma_find_ch_at, str_eq};
use vstd::prelude::*;
use vstd::string::StrSliceExecFns;
use vstd::string::StringExecFns;

verus! {

/// The node's role. `Master` accepts writes; `Slave` synchronises from the
/// named primary.
#[derive(Debug, PartialEq)]
pub enum Role {
    Master,
    Slave { master_host: String, master_port: String },
}

/// The model of a role.
pub enum RoleV {
    Master,
    Slave { master_host: Seq<char>, master_port: Seq<char> },
}

impl View for Role {
    type V = RoleV;

    open spec fn view(&self) -> RoleV {
        match self {
            Role::Master => RoleV::Master,
            Role::Slave { master_host, master_port } => RoleV::Slave {
                master_host: master_host@,
                master_port: master_port@,
            },
        }
    }
}

impl Clone for Role {
    fn clone(&self) -> (r: Self)
        ensures
            r@ == self@,
    {
        match self {
            Role::Master => Role::Master,
            Role::Slave { master_host, master_port } => Role::Slave {
                master_host: master_host.clone(),
                master_port: master_port.clone(),
            },
        }
    }
}

/// Why a textual role is rejected.
#[derive(Debug, PartialEq, Eq, Clone, Copy, Structural)]
pub enum RoleError {
    /// The text names neither `master` nor `slave`.
    UnknownRole,
    /// A `slave` role lacks the host or the port field.
    MissingField,
}

/// The text a role is written as: `master`, or `slave` with the primary's
/// host and port as comma-separated fields.
pub open spec fn role_string(r: RoleV) -> Seq<char> {
    match r {
        RoleV::Master => "master"@,
        RoleV::Slave { master_host, master_port } => "slave,"@ + master_host + ","@ + master_port,
    }
}

/// How a textual role is read: `master` exactly; else anything beginning
/// with `slave`, whose second and third comma-separated fields are the
/// primary's host and port (text past the third field is ignored).
pub open spec fn parse_role(s: Seq<char>) -> Result<RoleV, RoleError> {
    if s == "master"@ {
        Ok(RoleV::Master)
    } else if s.len() >= 5 && s.take(5) == "slave"@ {
        match find_ch(s, ',') {
            Some(c1) => {
                let r1 = s.skip(c1 as int + 1);
                match find_ch(r1, ',') {
                    Some(c2) => {
                        let host = r1.take(c2 as int);
                        let r2 = r1.skip(c2 as int + 1);
                        let port = match find_ch(r2, ',') {
                            Some(c3) => r2.take(c3 as int),
                            None => r2,
                        };
                        Ok(RoleV::Slave { master_host: host, master_port: port })
                    },
                    None => Err(RoleError::MissingField),
                }
            },
            None => Err(RoleError::MissingField),
        }
    } else {
        Err(RoleError::UnknownRole)
    }
}

impl Role {
    /// Reads a role from its textual form.
    pub fn from_string(role: &str) -> (r: Result<Role, RoleError>)
        ensures
            match r {
                Ok(x) => parse_role(role@) == Ok::<RoleV, RoleError>(x@),
                Err(e) => parse_role(role@) == Err::<RoleV, RoleError>(e),
            },
    {
        let n = role.unicode_len();
        if str_eq(role, "master") {
            return Ok(Role::Master);
        }
        if n < 5 {
            return Err(RoleError::UnknownRole);
        }
        let head = role.substring_char(0, 5);
        if !str_eq(head, "slave") {
            proof {
                assert(role@.take(5) == head@);
            }
            return Err(RoleError::UnknownRole);
        }
        proof {
            assert(role@.take(5) == head@);
        }
        let c1 = match find_char(role, ',') {
            Some(i) => i,
            None => {
                return Err(RoleError::MissingField);
            },
        };
        proof {
            lemma_find_ch(role@, ',');
        }
        let r1 = role.substring_char(c1 + 1, n);
        proof {
            assert(r1@ =~= role@.skip(c1 as int + 1));
        }
        let c2 = match find_char(r1, ',') {
            Some(i) => i,
            None => {
                return Err(RoleError::MissingField);
            },
        };
        proof {
            lemma_find_ch(r1@, ',');
        }
        let n1 = r1.unicode_len();
        let host = r1.substring_char(0, c2);
        let r2 = r1.substring_char(c2 + 1, n1);
        proof {
            assert(host@ =~= r1@.take(c2 as int));
            assert(r2@ =~= r1@.skip(c2 as int + 1));
        }
        let n2 = r2.unicode_len();
        let port = match find_char(r2, ',') {
            Some(c3) => {
                proof {
                    lemma_find_ch(r2@, ',');
                }
                let p = r2.substring_char(0, c3);
                proof {
                    assert(p@ =~= r2@.take(c3 as int));
                }
                p
            },
            None => r2,
        };
        Ok(
            Role::Slave {
                master_host: String::from_str(host),
                master_port: String::from_str(port),
            },
        )
    }

    /// Writes the role in its textual form.
    pub fn to_string(&self) -> (r: String)
        ensures
            r@ == role_string(self@),
    {
        match self {
            Role::Master => String::from_str("master"),
            Role::Slave { master_host, master_port } => {
                let mut s = String::from_str("slave,");
                s.append(master_host.as_str());
                s.append(",");
                s.append(master_port.as_str());
                s
            },
        }
    }
}

pub open spec fn comma_free(s: Seq<char>) -> bool {
    forall|i: int| 0 <= i < s.len() ==> #[trigger] s[i] != ','
}

/// Writing a role as text and reading it back yields the role, as long as a
/// replica's host and port hold no comma (the field separator).
pub proof fn lemma_role_round_trip(r: RoleV)
    requires
        match r {
            RoleV::Master => true,
            RoleV::Slave { master_host, master_port } => comma_free(master_host) && comma_free(
                master_port,
            ),
        },
    ensures
        parse_role(role_string(r)) == Ok::<RoleV, RoleError>(r),
{
    reveal_strlit("master");
    reveal_strlit("slave");
    reveal_strlit("slave,");
    reveal_strlit(",");
    match r {
        RoleV::Master => {},
        RoleV::Slave { master_host, master_port } => {
            let s = role_string(r);
            assert(s.len() == 7 + master_host.len() + master_port.len());
            assert(s != "master"@);
            assert(s.take(5) =~= "slave"@);
            assert(s[5] == ',');
            assert forall|j: int| 0 <= j < 5 implies s[j] != ',' by {
                assert(s[j] == "slave,"@[j]);
            }
            lemma_find_ch_at(s, ',', 5);
            let r1 = s.skip(6);
            assert(r1 =~= master_host + ","@ + master_port);
            assert(r1[master_host.len() as int] == ',');
            assert forall|j: int| 0 <= j < master_host.len() implies r1[j] != ',' by {
                assert(r1[j] == master_host[j]);
            }
            lemma_find_ch_at(r1, ',', master_host.len() as int);
            assert(r1.take(master_host.len() as int) =~= master_host);
            let r2 = r1.skip(master_host.len() as int + 1);
            assert(r2 =~= master_port);
            lemma_find_ch(r2, ',');
            if find_ch(r2, ',') is Some {
                let i = find_ch(r2, ',')->0;
                assert(r2[i as int] == ',');
                assert(master_port[i as int] == ',');
            }
        },
    }
}

/// The model of the node's replication state.
pub struct ServerStateV {
    pub role: RoleV,
    pub master_replid: Seq<char>,
    pub master_repl_offset: u64,
}

/// The node's replication state: role, replication id, replication offset.
#[derive(Debug, PartialEq)]
pub struct ServerState {
    pub role: Role,
    pub master_replid: String,
    pub master_repl_offset: u64,
}

impl View for ServerState {
    type V = ServerStateV;

    open spec fn view(&self) -> ServerStateV {
        ServerStateV {
            role: self.role@,
            master_replid: self.master_replid@,
            master_repl_offset: self.master_repl_offset,
        }
    }
}

impl ServerState {
    /// The state a node starts in: the configured role, the node's fixed
    /// replication id, and offset zero.
    pub fn init(role: Role) -> (r: ServerState)
        ensures
            r@.role == role@,
            r@.master_replid == "8371b4fb1155b71f4a04d3e1bc3e18c4a990aeeb"@,
            r@.master_repl_offset == 0,
    {
        ServerState {
            role,
            master_replid: String::from_str("8371b4fb1155b71f4a04d3e1bc3e18c4a990aeeb"),
            master_repl_offset: 0,
        }
    }

    /// Replaces the state wholesale.
    pub fn set(&mut self, s: ServerState)
        ensures
            final(self)@ == s@,
    {
        *self = s;
    }

    /// A copy of the state.
    pub fn get(&self) -> (r: ServerState)
        ensures
            r@ == self@,
    {
        ServerState {
            role: self.role.clone(),
            master_replid: self.master_replid.clone(),
            master_repl_offset: self.master_repl_offset,
        }
    }
}

} // verus!
