//! The address the server listens on, built from two configuration values.
use vstd::prelude::*;
use crate::decimal::{IntParseError, int_error_text, decimal_text, parse_u16, parse_unsigned, push_decimal};
use crate::ip::{IpAddr, IpModel, IpParseError, ip_error_text, ip_text, parse_ip};

verus! {

/// The configuration values the listen address is built from.
#[derive(Debug, Clone, Copy, PartialEq, Eq, Structural)]
pub enum ConfigKey {
    IpAddr,
    Port,
}

/// Why no listen address could be built.
#[derive(Debug, Clone, Copy, PartialEq, Eq, Structural)]
pub enum SocketAddrError {
    /// The configuration has no value under this key.
    MissingConfig(ConfigKey),
    /// The port value is not a `u16`.
    Port(IntParseError),
    /// The address value is not a network address.
    Ip(IpParseError),
}

/// An address and a port to listen on.
#[derive(Debug)]
pub struct SocketAddr {
    pub ip_addr: IpAddr,
    pub port: u16,
}

impl View for SocketAddr {
    type V = (IpModel, u16);

    open spec fn view(&self) -> (IpModel, u16) {
        (self.ip_addr@, self.port)
    }
}

pub open spec fn port_of(s: Seq<char>) -> Result<nat, IntParseError> {
    parse_unsigned(s, 0xffff)
}

/// The listen address that the two configuration values give. The address
/// is looked at first: a missing or malformed address is reported whatever
/// the port is.
pub open spec fn socket_from_config(ip: Option<Seq<char>>, port: Option<Seq<char>>) -> Result<
    (IpModel, u16),
    SocketAddrError,
> {
    match ip {
        None => Err(SocketAddrError::MissingConfig(ConfigKey::IpAddr)),
        Some(ip) => match parse_ip(ip) {
            Err(e) => Err(SocketAddrError::Ip(e)),
            Ok(addr) => match port {
                None => Err(SocketAddrError::MissingConfig(ConfigKey::Port)),
                Some(port) => match port_of(port) {
                    Err(e) => Err(SocketAddrError::Port(e)),
                    Ok(p) => Ok((addr, p as u16)),
                },
            },
        },
    }
}

pub open spec fn opt_view(s: Option<String>) -> Option<Seq<char>> {
    match s {
        Some(s) => Some(s@),
        None => None,
    }
}

/// The canonical text form `address:port`.
pub open spec fn socket_text(m: (IpModel, u16)) -> Seq<char> {
    ip_text(m.0) + seq![':'] + decimal_text(m.1 as nat)
}

impl ConfigKey {
    /// The conventional name of the configuration value.
    pub fn name(&self) -> (r: &'static str)
        ensures
            r@ == key_name(*self),
    {
        match self {
            ConfigKey::IpAddr => "IP_ADDR",
            ConfigKey::Port => "PORT",
        }
    }
}

pub open spec fn key_name(k: ConfigKey) -> Seq<char> {
    match k {
        ConfigKey::IpAddr => "IP_ADDR"@,
        ConfigKey::Port => "PORT"@,
    }
}

pub open spec fn socket_error_text(e: SocketAddrError) -> Seq<char> {
    match e {
        SocketAddrError::MissingConfig(k) => "Missing configuration value: '"@ + key_name(k) + "'"@,
        SocketAddrError::Port(e) => "Invalid port: "@ + int_error_text(e),
        SocketAddrError::Ip(e) => "IP parse error: "@ + ip_error_text(e),
    }
}

impl SocketAddrError {
    /// A message for this error, naming the configuration value at fault.
    pub fn to_string(&self) -> (r: String)
        ensures
            r@ == socket_error_text(*self),
    {
        match self {
            SocketAddrError::MissingConfig(k) => {
                let out = String::from_str("Missing configuration value: '");
                out.concat(k.name()).concat("'")
            },
            SocketAddrError::Port(e) => {
                let out = String::from_str("Invalid port: ");
                out.concat(e.to_string().as_str())
            },
            SocketAddrError::Ip(e) => {
                let out = String::from_str("IP parse error: ");
                out.concat(e.to_string().as_str())
            },
        }
    }
}

impl SocketAddr {
    /// Builds the listen address from the configured address and port
    /// texts; `None` stands for a value the configuration does not hold.
    pub fn from_config(ip: Option<String>, port: Option<String>) -> (r: Result<
        SocketAddr,
        SocketAddrError,
    >)
        ensures
            match r {
                Ok(a) => socket_from_config(opt_view(ip), opt_view(port)) == Ok::<
                    (IpModel, u16),
                    SocketAddrError,
                >(a@),
                Err(e) => socket_from_config(opt_view(ip), opt_view(port)) == Err::<
                    (IpModel, u16),
                    SocketAddrError,
                >(e),
            },
    {
        let ip = match ip {
            Some(ip) => ip,
            None => return Err(SocketAddrError::MissingConfig(ConfigKey::IpAddr)),
        };
        let ip_addr = match IpAddr::from_string(ip) {
            Ok(a) => a,
            Err(e) => return Err(SocketAddrError::Ip(e)),
        };
        let port_text = match port {
            Some(p) => p,
            None => return Err(SocketAddrError::MissingConfig(ConfigKey::Port)),
        };
        let port = match parse_u16(port_text.as_str()) {
            Ok(p) => p,
            Err(e) => return Err(SocketAddrError::Port(e)),
        };
        Ok(SocketAddr { ip_addr, port })
    }

    /// The canonical text form `address:port`, used to bind and to log.
    pub fn to_string(&self) -> (r: String)
        ensures
            r@ == socket_text(self@),
    {
        let mut out = self.ip_addr.to_string();
        out.append(":");
        push_decimal(&mut out, self.port as u64);
        proof {
            reveal_strlit(":");
        }
        assert(out@ =~= socket_text(self@));
        out
    }
}

/// Address and port are checked apart: a valid address with a bad port
/// fails with the port's error, and a bad address fails with the address's
/// error whatever the port.
pub proof fn lemma_config_errors_name_component(ip: Seq<char>, port: Seq<char>)
    ensures
        parse_ip(ip).is_ok() && port_of(port).is_err() ==> socket_from_config(Some(ip), Some(port))
            == Err::<(IpModel, u16), SocketAddrError>(SocketAddrError::Port(port_of(port)->Err_0)),
        parse_ip(ip).is_err() ==> socket_from_config(Some(ip), Some(port)) == Err::<
            (IpModel, u16),
            SocketAddrError,
        >(SocketAddrError::Ip(parse_ip(ip)->Err_0)),
        parse_ip(ip).is_ok() && port_of(port).is_ok() ==> socket_from_config(Some(ip), Some(port))
            == Ok::<(IpModel, u16), SocketAddrError>((parse_ip(ip)->Ok_0, port_of(port)->Ok_0 as u16)),
{
}

} // verus!
