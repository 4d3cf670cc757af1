//! Access-control predicates over connection attributes. At this layer the
//! source address, the source port and the frontend (destination) port are
//! decisive; hostname, path and header predicates parse but always permit.

use vstd::prelude::*;
use vstd::string::StrSliceExecFns;
use vstd::string::StringSliceAdditionalSpecFns;
use crate::config::AclConfig;
use crate::config::ConfigError;
use crate::scan;
use crate::utils;
use crate::utils::Cidr;
use crate::utils::IpAddress;

verus! {

#[derive(Debug, Clone)]
pub enum AclCondition {
    SourceIp(Cidr),
    SourcePort(u16),
    DestinationPort(u16),
    Hostname(String),
    Path(String),
    Header(String, String),
    Custom,
}

pub ghost enum AclCondV {
    SourceIp(Cidr),
    SourcePort(u16),
    DestinationPort(u16),
    Hostname(Seq<char>),
    Path(Seq<char>),
    Header(Seq<char>, Seq<char>),
    Custom,
}

impl View for AclCondition {
    type V = AclCondV;

    open spec fn view(&self) -> AclCondV {
        match self {
            AclCondition::SourceIp(c) => AclCondV::SourceIp(*c),
            AclCondition::SourcePort(p) => AclCondV::SourcePort(*p),
            AclCondition::DestinationPort(p) => AclCondV::DestinationPort(*p),
            AclCondition::Hostname(h) => AclCondV::Hostname(h@),
            AclCondition::Path(p) => AclCondV::Path(p@),
            AclCondition::Header(n, v) => AclCondV::Header(n@, v@),
            AclCondition::Custom => AclCondV::Custom,
        }
    }
}

#[derive(Debug, Clone)]
pub struct Acl {
    pub conditions: Vec<AclCondition>,
}

impl View for Acl {
    type V = Seq<AclCondV>;

    open spec fn view(&self) -> Seq<AclCondV> {
        self.conditions@.map_values(|c: AclCondition| c@)
    }
}

/// What an ACL criterion text parses to: one condition, or `None` when the
/// kind is known but its argument is missing or unreadable. Unknown kinds
/// become the always-true `Custom` condition.
pub open spec fn spec_parse_criterion(s: Seq<u8>) -> Option<AclCondV> {
    let toks = scan::spec_tokens(s);
    if toks.len() == 0 {
        None
    } else if toks[0] == "src".spec_bytes() {
        if toks.len() < 2 || !scan::all_ascii(toks[1]) {
            None
        } else {
            match utils::parsed_network(scan::ascii_view(toks[1])) {
                Some(t) => Some(
                    AclCondV::SourceIp(Cidr { v4: t.0, addr4: t.1, addr6: t.2, prefix: t.3 }),
                ),
                None => None,
            }
        }
    } else if toks[0] == "src_port".spec_bytes() {
        if toks.len() >= 2 && scan::is_number(toks[1]) && scan::digits_val(toks[1]) <= u16::MAX {
            Some(AclCondV::SourcePort(scan::digits_val(toks[1]) as u16))
        } else {
            None
        }
    } else if toks[0] == "dst_port".spec_bytes() {
        if toks.len() >= 2 && scan::is_number(toks[1]) && scan::digits_val(toks[1]) <= u16::MAX {
            Some(AclCondV::DestinationPort(scan::digits_val(toks[1]) as u16))
        } else {
            None
        }
    } else if toks[0] == "hdr".spec_bytes() {
        if toks.len() >= 3 && scan::all_ascii(toks[1]) && scan::all_ascii(toks[2]) {
            Some(AclCondV::Header(scan::ascii_view(toks[1]), scan::ascii_view(toks[2])))
        } else {
            None
        }
    } else if toks[0] == "path".spec_bytes() {
        if toks.len() >= 2 && scan::all_ascii(toks[1]) {
            Some(AclCondV::Path(scan::ascii_view(toks[1])))
        } else {
            None
        }
    } else if toks[0] == "host".spec_bytes() {
        if toks.len() >= 2 && scan::all_ascii(toks[1]) {
            Some(AclCondV::Hostname(scan::ascii_view(toks[1])))
        } else {
            None
        }
    } else {
        Some(AclCondV::Custom)
    }
}

/// Whether one condition holds of a connection from `ip` with this source
/// port, accepted on a frontend bound to `dst_port`. The address, source
/// port and destination port decide; the rest permit at this layer.
pub open spec fn spec_eval_condition(
    c: AclCondV,
    ip: IpAddress,
    src_port: u16,
    dst_port: u16,
) -> bool {
    match c {
        AclCondV::SourceIp(n) => n.spec_contains(ip),
        AclCondV::SourcePort(p) => src_port == p,
        AclCondV::DestinationPort(p) => dst_port == p,
        AclCondV::Hostname(h) => true,
        AclCondV::Path(p) => true,
        AclCondV::Header(n, v) => true,
        AclCondV::Custom => true,
    }
}

/// An ACL holds when every one of its conditions does.
pub open spec fn spec_eval(conds: Seq<AclCondV>, ip: IpAddress, src_port: u16, dst_port: u16) -> bool {
    forall|i: int|
        0 <= i < conds.len() ==> spec_eval_condition(#[trigger] conds[i], ip, src_port, dst_port)
}

/// Every address block held by an ACL has a valid prefix.
pub open spec fn spec_acl_wf(conds: Seq<AclCondV>) -> bool {
    forall|i: int|
        0 <= i < conds.len() ==> match #[trigger] conds[i] {
            AclCondV::SourceIp(n) => n.wf(),
            _ => true,
        }
}

impl Acl {
    /// Build an ACL from one parsed criterion line.
    pub fn from_config(config: &AclConfig) -> (r: Result<Self, ConfigError>)
        ensures
            match spec_parse_criterion(vstd::utf8::encode_utf8(config.criterion@)) {
                Some(c) => r matches Ok(a) && a@ == seq![c] && spec_acl_wf(a@),
                None => r is Err,
            },
    {
        let conditions = Self::parse_criterion(config.criterion.as_str())?;
        Ok(Self { conditions })
    }

    /// Whether a connection from `ip` with this source port, accepted on a
    /// frontend bound to `frontend_port`, satisfies every condition.
    pub fn evaluate(&self, client_ip: IpAddress, client_port: u16, frontend_port: u16) -> (r:
        bool)
        requires
            spec_acl_wf(self@),
        ensures
            r == spec_eval(self@, client_ip, client_port, frontend_port),
    {
        let mut i: usize = 0;
        while i < self.conditions.len()
            invariant
                i <= self@.len(),
                spec_acl_wf(self@),
                forall|j: int|
                    0 <= j < i ==> spec_eval_condition(
                        #[trigger] self@[j],
                        client_ip,
                        client_port,
                        frontend_port,
                    ),
            decreases self@.len() - i,
        {
            let c = &self.conditions[i];
            proof {
                assert(c@ == self@[i as int]);
            }
            let ok = match c {
                AclCondition::SourceIp(network) => {
                    proof {
                        assert(self@[i as int] == AclCondV::SourceIp(*network));
                    }
                    utils::ip_in_network(client_ip, network)
                },
                AclCondition::SourcePort(port) => client_port == *port,
                AclCondition::DestinationPort(port) => frontend_port == *port,
                AclCondition::Hostname(_hostname) => true,
                AclCondition::Path(_path) => true,
                AclCondition::Header(_name, _value) => true,
                AclCondition::Custom => true,
            };
            if !ok {
                proof {
                    assert(!spec_eval_condition(
                        self@[i as int],
                        client_ip,
                        client_port,
                        frontend_port,
                    ));
                }
                return false;
            }
            i += 1;
        }
        true
    }

    /// Parse one criterion line into its condition.
    fn parse_criterion(criterion: &str) -> (r: Result<Vec<AclCondition>, ConfigError>)
        ensures
            match spec_parse_criterion(criterion.spec_bytes()) {
                Some(c) => r matches Ok(v) && v@.map_values(|x: AclCondition| x@) == seq![c]
                    && spec_acl_wf(v@.map_values(|x: AclCondition| x@)),
                None => r is Err,
            },
    {
        let bytes = criterion.as_bytes_vec();
        let tokens = scan::split_ws(bytes.as_slice());
        let ghost toks = scan::spec_tokens(criterion.spec_bytes());
        proof {
            assert(tokens.deep_view() == toks);
        }
        if tokens.len() == 0 {
            return Err(ConfigError::EmptyAclCriterion);
        }
        let t0 = &tokens[0];
        proof {
            assert(t0@ == toks[0]);
        }
        let cond: AclCondition = if scan::is_lit(t0.as_slice(), "src") {
            if tokens.len() < 2 {
                return Err(ConfigError::MissingAclArgument);
            }
            let t1 = &tokens[1];
            proof {
                assert(t1@ == toks[1]);
            }
            if !scan::check_ascii(t1.as_slice()) {
                return Err(ConfigError::InvalidAddress);
            }
            let text = scan::tok_to_string(t1.as_slice());
            match utils::parse_ip_or_cidr(text.as_str()) {
                Ok(network) => AclCondition::SourceIp(network),
                Err(e) => {
                    return Err(e);
                },
            }
        } else if scan::is_lit(t0.as_slice(), "src_port") {
            if tokens.len() < 2 {
                return Err(ConfigError::MissingAclArgument);
            }
            let t1 = &tokens[1];
            proof {
                assert(t1@ == toks[1]);
            }
            match scan::parse_u16(t1.as_slice()) {
                Some(p) => AclCondition::SourcePort(p),
                None => {
                    return Err(ConfigError::InvalidNumber);
                },
            }
        } else if scan::is_lit(t0.as_slice(), "dst_port") {
            if tokens.len() < 2 {
                return Err(ConfigError::MissingAclArgument);
            }
            let t1 = &tokens[1];
            proof {
                assert(t1@ == toks[1]);
            }
            match scan::parse_u16(t1.as_slice()) {
                Some(p) => AclCondition::DestinationPort(p),
                None => {
                    return Err(ConfigError::InvalidNumber);
                },
            }
        } else if scan::is_lit(t0.as_slice(), "hdr") {
            if tokens.len() < 3 {
                return Err(ConfigError::MissingAclArgument);
            }
            let t1 = &tokens[1];
            let t2 = &tokens[2];
            proof {
                assert(t1@ == toks[1]);
                assert(t2@ == toks[2]);
            }
            if !scan::check_ascii(t1.as_slice()) || !scan::check_ascii(t2.as_slice()) {
                return Err(ConfigError::NotAscii);
            }
            AclCondition::Header(
                scan::tok_to_string(t1.as_slice()),
                scan::tok_to_string(t2.as_slice()),
            )
        } else if scan::is_lit(t0.as_slice(), "path") {
            if tokens.len() < 2 {
                return Err(ConfigError::MissingAclArgument);
            }
            let t1 = &tokens[1];
            proof {
                assert(t1@ == toks[1]);
            }
            if !scan::check_ascii(t1.as_slice()) {
                return Err(ConfigError::NotAscii);
            }
            AclCondition::Path(scan::tok_to_string(t1.as_slice()))
        } else if scan::is_lit(t0.as_slice(), "host") {
            if tokens.len() < 2 {
                return Err(ConfigError::MissingAclArgument);
            }
            let t1 = &tokens[1];
            proof {
                assert(t1@ == toks[1]);
            }
            if !scan::check_ascii(t1.as_slice()) {
                return Err(ConfigError::NotAscii);
            }
            AclCondition::Hostname(scan::tok_to_string(t1.as_slice()))
        } else {
            AclCondition::Custom
        };
        let mut conditions: Vec<AclCondition> = Vec::new();
        conditions.push(cond);
        proof {
            assert(conditions@.map_values(|x: AclCondition| x@) =~= seq![conditions@[0]@]);
        }
        Ok(conditions)
    }
}

} // verus!
