//! Game-server entries of the connect server's configuration: a section
//! named `gs-<code>` with an `addr` and a `port` key.

use vstd::prelude::*;
use vstd::slice::slice_subrange;
use vstd::string::StringSliceAdditionalSpecFns;

verus! {

pub open spec fn is_digit(c: u8) -> bool {
    0x30 <= c <= 0x39
}

/// Value of a run of decimal digits.
pub open spec fn digits_value(s: Seq<u8>) -> nat
    decreases s.len(),
{
    if s.len() == 0 {
        0
    } else {
        digits_value(s.drop_last()) * 10 + (s.last() - 0x30) as nat
    }
}

/// The digits of a decimal number, after an optional leading `+`.
pub open spec fn unsigned_digits(s: Seq<u8>) -> Seq<u8> {
    if s.len() > 0 && s[0] == 0x2B {
        s.drop_first()
    } else {
        s
    }
}

/// A decimal `u16` as `str::parse` reads it: an optional `+`, then one or
/// more digits whose value fits.
pub open spec fn spec_parse_u16(s: Seq<u8>) -> Option<u16> {
    let d = unsigned_digits(s);
    if d.len() > 0 && (forall|i: int| 0 <= i < d.len() ==> is_digit(#[trigger] d[i]))
        && digits_value(d) <= u16::MAX {
        Some(digits_value(d) as u16)
    } else {
        None
    }
}

proof fn lemma_digits_value_grows(s: Seq<u8>, k: int)
    requires
        0 <= k <= s.len(),
        forall|i: int| 0 <= i < s.len() ==> is_digit(#[trigger] s[i]),
    ensures
        digits_value(s) >= digits_value(s.subrange(0, k)),
    decreases s.len(),
{
    if k < s.len() {
        assert(s.drop_last() =~= s.subrange(0, s.len() - 1));
        assert(s.subrange(0, s.len() - 1).subrange(0, k) =~= s.subrange(0, k));
        lemma_digits_value_grows(s.drop_last(), k);
    } else {
        assert(s.subrange(0, k) =~= s);
    }
}

/// Reads a decimal `u16` from text bytes.
#[verifier::loop_isolation(false)]
pub fn parse_u16(s: &[u8]) -> (r: Option<u16>)
    ensures
        r == spec_parse_u16(s@),
{
    let start: usize = if s.len() > 0 && s[0] == 0x2B {
        1
    } else {
        0
    };
    let d = slice_subrange(s, start, s.len());
    proof {
        assert(d@ =~= unsigned_digits(s@));
    }
    if d.len() == 0 {
        return None;
    }
    let mut value: u32 = 0;
    let mut i: usize = 0;
    while i < d.len()
        invariant
            0 <= i <= d@.len(),
            forall|j: int| 0 <= j < i ==> is_digit(#[trigger] d@[j]),
            value == digits_value(d@.subrange(0, i as int)),
            value <= u16::MAX,
        decreases d@.len() - i,
    {
        let c = d[i];
        if c < 0x30 || c > 0x39 {
            proof {
                assert(!is_digit(d@[i as int]));
            }
            return None;
        }
        proof {
            assert(d@.subrange(0, i + 1).drop_last() =~= d@.subrange(0, i as int));
        }
        value = value * 10 + (c - 0x30) as u32;
        i += 1;
        if value > 0xFFFF {
            proof {
                if forall|j: int| 0 <= j < d@.len() ==> is_digit(#[trigger] d@[j]) {
                    lemma_digits_value_grows(d@, i as int);
                }
            }
            return None;
        }
    }
    proof {
        assert(d@.subrange(0, d@.len() as int) =~= d@);
    }
    Some(value as u16)
}

/// A configuration entry that cannot be used; the server does not start.
#[derive(Clone, Copy, Debug, PartialEq, Eq, Structural)]
pub enum ConfigError {
    MissingAddr,
    MissingPort,
    InvalidSectionName,
    InvalidAddr,
    InvalidPort,
    NoGameServers,
}

/// Longest address text that fits, with a terminating zero, in the
/// 16-byte address field.
pub const MAX_ADDR_LEN: usize = 15;

/// A game server as configured.
#[derive(Clone, Copy, Debug)]
pub struct GsEntry {
    pub svr_code: u16,
    pub ip: [u8; 16],
    pub port: u16,
}

/// Whether a section name is one of a game server.
pub open spec fn names_gs(section: Seq<u8>) -> bool {
    section.len() >= 3 && section[0] == 0x67 && section[1] == 0x73 && section[2] == 0x2D
}

/// What the section `section` with keys `addr` and `port` configures:
/// nothing where it is not a game server's, else its code, address bytes
/// and port, or the first thing wrong with it.
pub open spec fn spec_gs_entry(
    section: Seq<u8>,
    addr: Option<Seq<u8>>,
    port: Option<Seq<u8>>,
) -> Result<Option<(u16, Seq<u8>, u16)>, ConfigError> {
    if !names_gs(section) {
        Ok(None)
    } else if addr is None {
        Err(ConfigError::MissingAddr)
    } else if port is None {
        Err(ConfigError::MissingPort)
    } else {
        let code = section.subrange(3, section.len() as int);
        if code.contains(0x2Du8) || spec_parse_u16(code) is None {
            Err(ConfigError::InvalidSectionName)
        } else if addr.unwrap().len() > MAX_ADDR_LEN {
            Err(ConfigError::InvalidAddr)
        } else if spec_parse_u16(port.unwrap()) is None {
            Err(ConfigError::InvalidPort)
        } else {
            Ok(
                Some(
                    (
                        spec_parse_u16(code).unwrap(),
                        addr.unwrap(),
                        spec_parse_u16(port.unwrap()).unwrap(),
                    ),
                ),
            )
        }
    }
}

pub open spec fn bytes_of_opt(s: Option<&str>) -> Option<Seq<u8>> {
    match s {
        Some(t) => Some(t.spec_bytes()),
        None => None,
    }
}

/// Reads one section of the configuration; see `spec_gs_entry`. The
/// address is stored zero-padded.
#[verifier::loop_isolation(false)]
pub fn gs_entry(section: &str, addr: Option<&str>, port: Option<&str>) -> (r: Result<
    Option<GsEntry>,
    ConfigError,
>)
    ensures
        match spec_gs_entry(section.spec_bytes(), bytes_of_opt(addr), bytes_of_opt(port)) {
            Ok(None) => r matches Ok(None),
            Err(e) => r == Err::<Option<GsEntry>, ConfigError>(e),
            Ok(Some((code, a, p))) => r matches Ok(Some(g)) && g.svr_code == code && g.port == p
                && g.ip@ == a + Seq::new((16 - a.len()) as nat, |i: int| 0u8),
        },
{
    let name = section.as_bytes();
    if !(name.len() >= 3 && name[0] == 0x67 && name[1] == 0x73 && name[2] == 0x2D) {
        return Ok(None);
    }
    let addr = match addr {
        None => return Err(ConfigError::MissingAddr),
        Some(a) => a.as_bytes(),
    };
    let port = match port {
        None => return Err(ConfigError::MissingPort),
        Some(p) => p.as_bytes(),
    };
    let code_part = slice_subrange(name, 3, name.len());
    let mut i: usize = 0;
    while i < code_part.len()
        invariant
            0 <= i <= code_part@.len(),
            forall|j: int| 0 <= j < i ==> code_part@[j] != 0x2Du8,
        decreases code_part@.len() - i,
    {
        if code_part[i] == 0x2D {
            proof {
                assert(code_part@[i as int] == 0x2Du8);
                assert(code_part@.contains(0x2Du8));
            }
            return Err(ConfigError::InvalidSectionName);
        }
        i += 1;
    }
    let code = match parse_u16(code_part) {
        None => return Err(ConfigError::InvalidSectionName),
        Some(c) => c,
    };
    if addr.len() > MAX_ADDR_LEN {
        return Err(ConfigError::InvalidAddr);
    }
    let mut ip = [0u8; 16];
    let mut k: usize = 0;
    while k < addr.len()
        invariant
            addr@.len() <= MAX_ADDR_LEN,
            0 <= k <= addr@.len(),
            forall|j: int| 0 <= j < k ==> ip@[j] == addr@[j],
            forall|j: int| k <= j < 16 ==> ip@[j] == 0u8,
        decreases addr@.len() - k,
    {
        ip[k] = addr[k];
        k += 1;
    }
    let port = match parse_u16(port) {
        None => return Err(ConfigError::InvalidPort),
        Some(p) => p,
    };
    proof {
        assert(ip@ =~= addr@ + Seq::new((16 - addr@.len()) as nat, |i: int| 0u8));
    }
    Ok(Some(GsEntry { svr_code: code, ip, port }))
}

} // verus!
