//! The build-time settings of the front end.

use crate::text::{
    append_decimal, chars_of, decimal, digit_char, digits_value, law_digits_are_the_decimal, text_of,
};
use vstd::prelude::*;

verus! {

/// The build-time settings of the front end.
pub struct FirmwareConfig {
    pub wifi_ssid: String,
    pub wifi_passwd: String,
    pub server_ip: [u8; 4],
    pub server_port: u16,
}

/// Why a configuration cannot be used.
#[derive(Debug, Clone, Copy, PartialEq, Eq, Structural)]
pub enum ConfigError {
    /// The text is no TOML document.
    NotToml,
    /// There is no network name.
    NoSsid,
    /// There is no password.
    NoPasswd,
    /// There is no server address.
    NoServerIp,
    /// The server address is no IPv4 address.
    BadServerIp,
    /// There is no port.
    NoServerPort,
}

// ---------------------------------------------------------------------------
// Addresses
// ---------------------------------------------------------------------------

/// The number that a part of an address stands for: one to three digits without a
/// needless zero in front, 255 at most.
pub open spec fn octet(s: Seq<char>) -> Option<u8> {
    if s.len() == 0 || s.len() > 3 || (s.len() > 1 && s[0] == '0') {
        None
    } else {
        match digits_value(s) {
            Some(v) => if v <= 255 {
                Some(v as u8)
            } else {
                None
            },
            None => None,
        }
    }
}

/// The parts of a text between its dots.
pub open spec fn parts(s: Seq<char>) -> Seq<Seq<char>>
    decreases s.len(),
{
    if s.len() == 0 {
        seq![seq![]]
    } else {
        let p = parts(s.drop_last());
        if s.last() == '.' {
            p.push(seq![])
        } else {
            p.drop_last().push(p.last().push(s.last()))
        }
    }
}

/// The four parts of an IPv4 address.
pub open spec fn address(s: Seq<char>) -> Option<(u8, u8, u8, u8)> {
    let p = parts(s);
    if p.len() != 4 {
        None
    } else {
        match (octet(p[0]), octet(p[1]), octet(p[2]), octet(p[3])) {
            (Some(a), Some(b), Some(c), Some(d)) => Some((a, b, c, d)),
            _ => None,
        }
    }
}

fn read_octet(s: &[char], from: usize, to: usize) -> (r: Option<u8>)
    requires
        from <= to <= s@.len(),
    ensures
        r == octet(s@.subrange(from as int, to as int)),
{
    let ghost t = s@.subrange(from as int, to as int);
    if from == to || to - from > 3 || (to - from > 1 && s[from] == '0') {
        return None;
    }
    let mut v: u32 = 0;
    let mut i: usize = from;
    assert(t.take(0) =~= seq![]);
    while i < to
        invariant
            from <= i <= to <= s@.len(),
            to - from <= 3,
            from < to,
            !(t.len() > 1 && t[0] == '0'),
            t == s@.subrange(from as int, to as int),
            digits_value(t.take(i - from)) == Some(v as nat),
            v <= 999,
            i - from == 0 ==> v == 0,
            i - from == 1 ==> v <= 9,
            i - from == 2 ==> v <= 99,
        decreases to - i,
    {
        let c: char = s[i];
        let ghost k = i - from;
        assert(t.take(k + 1).drop_last() =~= t.take(k));
        assert(t.take(k + 1).last() == c);
        if !('0' <= c && c <= '9') {
            proof {
                lemma_digits_none(t, k + 1);
            }
            return None;
        }
        v = v * 10 + (c as u32 - '0' as u32);
        i = i + 1;
    }
    assert(t.take(t.len() as int) =~= t);
    if v <= 255 {
        Some(v as u8)
    } else {
        None
    }
}

proof fn lemma_digits_none(s: Seq<char>, k: int)
    requires
        0 <= k <= s.len(),
        digits_value(s.take(k)) is None,
    ensures
        digits_value(s) is None,
    decreases s.len(),
{
    if k == s.len() {
        assert(s.take(k) =~= s);
    } else {
        assert(s.drop_last().take(k) =~= s.take(k));
        lemma_digits_none(s.drop_last(), k);
    }
}

/// Where a text has been cut at its dots up to a place.
spec fn cut_at(s: Seq<char>, k: int, starts: Seq<usize>) -> bool {
    let p = parts(s.take(k));
    &&& p.len() == starts.len()
    &&& p.len() > 0
    &&& starts[0] == 0
    &&& starts.last() <= k
    &&& p.last() == s.subrange(starts.last() as int, k)
    &&& forall|i: int|
        #![trigger starts[i]]
        0 <= i < starts.len() - 1 ==> starts[i] < starts[i + 1] && starts[i + 1] <= k && p[i]
            == s.subrange(starts[i] as int, starts[i + 1] - 1)
}

/// Reads an IPv4 address.
pub fn parse_ipv4(text: &str) -> (r: Option<[u8; 4]>)
    ensures
        match r {
            Some(a) => address(text@) == Some((a@[0], a@[1], a@[2], a@[3])),
            None => address(text@) is None,
        },
{
    let chars = chars_of(text);
    let s: &[char] = chars.as_slice();
    let n: usize = s.len();
    let mut starts: Vec<usize> = Vec::new();
    starts.push(0);
    proof {
        assert(s@.take(0) =~= seq![]);
        assert(s@.subrange(0, 0) =~= seq![]);
    }
    for i in 0..n
        invariant
            n == s@.len(),
            cut_at(s@, i as int, starts@),
    {
        let ghost p = parts(s@.take(i as int));
        let ghost q = parts(s@.take(i + 1));
        let ghost before = starts@;
        assert(s@.take(i + 1).drop_last() =~= s@.take(i as int));
        if s[i] == '.' {
            starts.push(i + 1);
            proof {
                assert(q =~= p.push(seq![]));
                assert(s@.subrange(i + 1, i + 1) =~= seq![]);
                assert forall|j: int|
                    #![trigger starts@[j]]
                    0 <= j < starts@.len() - 1 implies starts@[j] < starts@[j + 1] && starts@[j + 1]
                    <= i + 1 && q[j] == s@.subrange(starts@[j] as int, starts@[j + 1] - 1) by {
                    if j < before.len() - 1 {
                        assert(before[j] < before[j + 1]);
                    }
                }
            }
        } else {
            proof {
                assert(q.last() =~= s@.subrange(starts@.last() as int, i + 1));
                assert forall|j: int|
                    #![trigger starts@[j]]
                    0 <= j < starts@.len() - 1 implies starts@[j] < starts@[j + 1] && starts@[j + 1]
                    <= i + 1 && q[j] == s@.subrange(starts@[j] as int, starts@[j + 1] - 1) by {
                    assert(before[j] < before[j + 1]);
                    assert(q[j] == p[j]);
                }
            }
        }
    }
    assert(s@.take(n as int) =~= s@);
    if starts.len() != 4 {
        return None;
    }
    proof {
        assert(starts@[0] < starts@[1] && starts@[1] < starts@[2] && starts@[2] < starts@[3]);
    }
    let a = read_octet(s, starts[0], starts[1] - 1);
    let b = read_octet(s, starts[1], starts[2] - 1);
    let c = read_octet(s, starts[2], starts[3] - 1);
    let d = read_octet(s, starts[3], n);
    match (a, b, c, d) {
        (Some(a), Some(b), Some(c), Some(d)) => Some([a, b, c, d]),
        _ => None,
    }
}

/// The Rust expression for an address.
pub open spec fn address_expression(a: u8, b: u8, c: u8, d: u8) -> Seq<char> {
    "core::net::Ipv4Addr::new("@ + decimal(a as nat) + ", "@ + decimal(b as nat) + ", "@ + decimal(
        c as nat,
    ) + ", "@ + decimal(d as nat) + ")"@
}

/// The Rust expression for an address.
pub fn ipv4_literal(ip: [u8; 4]) -> (r: String)
    ensures
        r@ == address_expression(ip@[0], ip@[1], ip@[2], ip@[3]),
{
    let mut out = String::new();
    out.append("core::net::Ipv4Addr::new(");
    append_decimal(&mut out, ip[0] as u64);
    out.append(", ");
    append_decimal(&mut out, ip[1] as u64);
    out.append(", ");
    append_decimal(&mut out, ip[2] as u64);
    out.append(", ");
    append_decimal(&mut out, ip[3] as u64);
    out.append(")");
    assert(out@ =~= address_expression(ip@[0], ip@[1], ip@[2], ip@[3]));
    out
}

/// An address as it is written.
pub open spec fn dotted(a: u8, b: u8, c: u8, d: u8) -> Seq<char> {
    decimal(a as nat) + "."@ + decimal(b as nat) + "."@ + decimal(c as nat) + "."@ + decimal(
        d as nat,
    )
}

proof fn lemma_parts_digits(s: Seq<char>, t: Seq<char>)
    requires
        forall|i: int| 0 <= i < t.len() ==> t[i] != '.',
    ensures
        parts(s).len() > 0,
        parts(s + t) == parts(s).drop_last().push(parts(s).last() + t),
    decreases s.len() + t.len(),
{
    if t.len() == 0 {
        if s.len() > 0 {
            lemma_parts_digits(s.drop_last(), seq![]);
        }
        assert(s + t =~= s);
        assert(parts(s).last() + t =~= parts(s).last());
        assert(parts(s).drop_last().push(parts(s).last()) =~= parts(s));
    } else {
        let u = t.drop_last();
        lemma_parts_digits(s, u);
        assert((s + t).drop_last() =~= s + u);
        let p = parts(s + u);
        assert(p.last() == parts(s).last() + u);
        assert(p.drop_last() =~= parts(s).drop_last());
        assert(p.last().push(t.last()) =~= parts(s).last() + t);
    }
}

proof fn lemma_parts_dot(s: Seq<char>)
    ensures
        parts(s + "."@) == parts(s).push(seq![]),
{
    reveal_strlit(".");
    assert((s + "."@).drop_last() =~= s);
}

proof fn lemma_octet_of_decimal(v: u8)
    ensures
        octet(decimal(v as nat)) == Some(v),
        forall|i: int| 0 <= i < decimal(v as nat).len() ==> decimal(v as nat)[i] != '.',
{
    reveal_with_fuel(decimal, 4);
    reveal_with_fuel(digits_value, 4);
    let n = v as nat;
    let s = decimal(n);
    if n < 10 {
        assert(s.drop_last() =~= seq![]);
    } else if n < 100 {
        assert(s.drop_last() =~= decimal(n / 10));
        assert(s.drop_last().drop_last() =~= seq![]);
        assert(s[0] == digit_char(n / 10));
    } else {
        assert(s.drop_last() =~= decimal(n / 10));
        assert(s.drop_last().drop_last() =~= decimal(n / 10 / 10));
        assert(s.drop_last().drop_last().drop_last() =~= seq![]);
        assert(s[0] == digit_char(n / 10 / 10));
    }
}

/// A text is an address only as addresses are written: four numbers up to 255, in decimal
/// without needless zeros, with dots between them.
pub proof fn law_address_is_dotted(s: Seq<char>)
    requires
        address(s) is Some,
    ensures
        ({
            let (a, b, c, d) = address(s)->0;
            s == dotted(a, b, c, d)
        }),
{
    let p = parts(s);
    let (a, b, c, d) = address(s)->0;
    law_digits_are_the_decimal(p[0]);
    law_digits_are_the_decimal(p[1]);
    law_digits_are_the_decimal(p[2]);
    law_digits_are_the_decimal(p[3]);
    law_parts_make_up_the_text(s);
    reveal_strlit(".");
    reveal_with_fuel(with_dots, 4);
    assert(p.drop_last().drop_last().drop_last()[0] == p[0]);
    assert(with_dots(p) =~= dotted(a, b, c, d));
}

/// Parts with dots between them.
pub open spec fn with_dots(p: Seq<Seq<char>>) -> Seq<char>
    decreases p.len(),
{
    if p.len() == 0 {
        seq![]
    } else if p.len() == 1 {
        p[0]
    } else {
        with_dots(p.drop_last()) + "."@ + p.last()
    }
}

/// Cutting a text up at its dots loses nothing: with dots between them the parts are the text
/// again, and no part has a dot.
pub proof fn law_parts_make_up_the_text(s: Seq<char>)
    ensures
        parts(s).len() > 0,
        with_dots(parts(s)) == s,
        forall|i: int|
            #![trigger parts(s)[i]]
            0 <= i < parts(s).len() ==> !parts(s)[i].contains('.'),
    decreases s.len(),
{
    reveal_strlit(".");
    let p = parts(s);
    if s.len() > 0 {
        let t = s.drop_last();
        let q = parts(t);
        law_parts_make_up_the_text(t);
        assert(s =~= t.push(s.last()));
        if s.last() == '.' {
            assert(p.drop_last() =~= q);
            assert(with_dots(p) =~= t + "."@ + p.last());
            assert forall|i: int| #![trigger p[i]] 0 <= i < p.len() implies !p[i].contains('.') by {
                if i < q.len() {
                    assert(p[i] == q[i]);
                }
            }
        } else {
            assert(p.drop_last() =~= q.drop_last());
            assert(q.last() == q[q.len() - 1]);
            if q.len() == 1 {
                assert(with_dots(p) =~= q[0].push(s.last()));
            } else {
                assert(with_dots(p) =~= with_dots(q).push(s.last()));
            }
            assert forall|i: int| #![trigger p[i]] 0 <= i < p.len() implies !p[i].contains('.') by {
                if i < q.len() - 1 {
                    assert(p[i] == q[i]);
                } else if p[i].contains('.') {
                    let k = choose|k: int| 0 <= k < p[i].len() && p[i][k] == '.';
                    assert(q[i][k] == '.');
                    assert(q[i].contains('.'));
                }
            }
        }
    }
}

/// An address is read back from how it is written.
pub proof fn law_address_read_back(a: u8, b: u8, c: u8, d: u8)
    ensures
        address(dotted(a, b, c, d)) == Some((a, b, c, d)),
{
    lemma_octet_of_decimal(a);
    lemma_octet_of_decimal(b);
    lemma_octet_of_decimal(c);
    lemma_octet_of_decimal(d);
    let e: Seq<char> = seq![];
    let (ta, tb, tc, td) = (
        decimal(a as nat),
        decimal(b as nat),
        decimal(c as nat),
        decimal(d as nat),
    );
    lemma_parts_digits(e, ta);
    assert(e + ta =~= ta);
    assert(parts(ta) =~= seq![ta]);
    lemma_parts_dot(ta);
    lemma_parts_digits(ta + "."@, tb);
    assert(parts(ta + "."@ + tb) =~= seq![ta, tb]);
    lemma_parts_dot(ta + "."@ + tb);
    lemma_parts_digits(ta + "."@ + tb + "."@, tc);
    assert(parts(ta + "."@ + tb + "."@ + tc) =~= seq![ta, tb, tc]);
    lemma_parts_dot(ta + "."@ + tb + "."@ + tc);
    lemma_parts_digits(ta + "."@ + tb + "."@ + tc + "."@, td);
    assert(parts(dotted(a, b, c, d)) =~= seq![ta, tb, tc, td]);
}

// ---------------------------------------------------------------------------
// The file
// ---------------------------------------------------------------------------

/// Whether a text is a TOML document.
pub uninterp spec fn toml_document(text: Seq<char>) -> bool;

/// The string at a key of a table in a TOML document, if there is one.
pub uninterp spec fn toml_string_at(
    text: Seq<char>,
    table: Seq<char>,
    key: Seq<char>,
) -> Option<Seq<char>>;

/// The integer at a key of a table in a TOML document, if there is one.
pub uninterp spec fn toml_integer_at(
    text: Seq<char>,
    table: Seq<char>,
    key: Seq<char>,
) -> Option<i64>;

/// `toml::from_str` into a `toml::Value`: whether the text can be read as a TOML document,
/// which depends on the text alone.
#[verifier::external_body]
fn toml_is_document(text: &str) -> (r: bool)
    ensures
        r == toml_document(text@),
{
    toml::from_str::<toml::Value>(text).is_ok()
}

/// `toml::from_str`, then `toml::Value::get` twice and `toml::Value::as_str`: the
/// string at a key of a table, which depends on the text, the table and the key
/// alone; nothing where the text is no TOML document or has no string there.
#[verifier::external_body]
fn toml_string(text: &str, table: &str, key: &str) -> (r: Option<String>)
    ensures
        match r {
            Some(v) => toml_string_at(text@, table@, key@) == Some(v@),
            None => toml_string_at(text@, table@, key@) is None,
        },
{
    let doc = toml::from_str::<toml::Value>(text).ok()?;
    doc.get(table)?.get(key)?.as_str().map(String::from)
}

/// `toml::from_str`, then `toml::Value::get` twice and `toml::Value::as_integer`: the
/// integer at a key of a table, which depends on the text, the table and the key
/// alone; nothing where the text is no TOML document or has no integer there.
#[verifier::external_body]
fn toml_integer(text: &str, table: &str, key: &str) -> (r: Option<i64>)
    ensures
        r == toml_integer_at(text@, table@, key@),
{
    let doc = toml::from_str::<toml::Value>(text).ok()?;
    doc.get(table)?.get(key)?.as_integer()
}

#[verifier::ext_equal]
pub ghost struct ConfigView {
    pub wifi_ssid: Seq<char>,
    pub wifi_passwd: Seq<char>,
    pub server_ip: (u8, u8, u8, u8),
    pub server_port: u16,
}

impl View for FirmwareConfig {
    type V = ConfigView;

    open spec fn view(&self) -> ConfigView {
        ConfigView {
            wifi_ssid: self.wifi_ssid@,
            wifi_passwd: self.wifi_passwd@,
            server_ip: (
                self.server_ip@[0],
                self.server_ip@[1],
                self.server_ip@[2],
                self.server_ip@[3],
            ),
            server_port: self.server_port,
        }
    }
}

/// The configuration that the entries of a file make up. Of the port the low 16 bits
/// count.
pub open spec fn config_of(
    ssid: Option<Seq<char>>,
    passwd: Option<Seq<char>>,
    ip: Option<Seq<char>>,
    port: Option<i64>,
) -> Result<ConfigView, ConfigError> {
    if ssid is None {
        Err(ConfigError::NoSsid)
    } else if passwd is None {
        Err(ConfigError::NoPasswd)
    } else if ip is None {
        Err(ConfigError::NoServerIp)
    } else if address(ip->0) is None {
        Err(ConfigError::BadServerIp)
    } else if port is None {
        Err(ConfigError::NoServerPort)
    } else {
        Ok(
            ConfigView {
                wifi_ssid: ssid->0,
                wifi_passwd: passwd->0,
                server_ip: address(ip->0)->0,
                server_port: (port->0 as int % 0x1_0000) as u16,
            },
        )
    }
}

/// There is a configuration if and only if nothing is missing and the address is one; it holds
/// what the entries say, and a port of 16 bits as it stands. Otherwise the first entry that is
/// missing or wrong is named.
pub proof fn law_configuration_of_entries(
    ssid: Option<Seq<char>>,
    passwd: Option<Seq<char>>,
    ip: Option<Seq<char>>,
    port: Option<i64>,
)
    ensures
        ({
            let r = config_of(ssid, passwd, ip, port);
            &&& r is Ok <==> ssid is Some && passwd is Some && port is Some && ip is Some
                && address(ip->0) is Some
            &&& r matches Ok(c) ==> {
                &&& Some(c.wifi_ssid) == ssid
                &&& Some(c.wifi_passwd) == passwd
                &&& ip->0 == dotted(c.server_ip.0, c.server_ip.1, c.server_ip.2, c.server_ip.3)
                &&& 0 <= port->0 <= 65535 ==> c.server_port == port->0
                &&& (port->0 - c.server_port) % 65536 == 0
            }
            &&& r matches Err(e) ==> match e {
                ConfigError::NotToml => false,
                ConfigError::NoSsid => ssid is None,
                ConfigError::NoPasswd => passwd is None && ssid is Some,
                ConfigError::NoServerIp => ip is None && ssid is Some && passwd is Some,
                ConfigError::BadServerIp => ip is Some && address(ip->0) is None && ssid is Some
                    && passwd is Some,
                ConfigError::NoServerPort => port is None && ssid is Some && passwd is Some
                    && ip is Some && address(ip->0) is Some,
            }
        }),
{
    if ip is Some && address(ip->0) is Some {
        law_address_is_dotted(ip->0);
    }
}

/// Makes a configuration of the entries of a file.
pub fn build_config(
    ssid: Option<String>,
    passwd: Option<String>,
    ip: Option<String>,
    port: Option<i64>,
) -> (r: Result<FirmwareConfig, ConfigError>)
    ensures
        ({
            let want = config_of(text_of(ssid), text_of(passwd), text_of(ip), port);
            match r {
                Ok(c) => want == Ok::<ConfigView, ConfigError>(c@),
                Err(e) => want == Err::<ConfigView, ConfigError>(e),
            }
        }),
{
    let wifi_ssid = match ssid {
        Some(s) => s,
        None => {
            return Err(ConfigError::NoSsid);
        },
    };
    let wifi_passwd = match passwd {
        Some(s) => s,
        None => {
            return Err(ConfigError::NoPasswd);
        },
    };
    let ip_text = match ip {
        Some(s) => s,
        None => {
            return Err(ConfigError::NoServerIp);
        },
    };
    let server_ip = match parse_ipv4(ip_text.as_str()) {
        Some(a) => a,
        None => {
            return Err(ConfigError::BadServerIp);
        },
    };
    let number: i64 = match port {
        Some(p) => p,
        None => {
            return Err(ConfigError::NoServerPort);
        },
    };
    let server_port: u16 = #[verifier::truncate] (number as u16);
    proof {
        let m = number as int % 0x1_0000;
        assert(number as u16 == (number as u64 % 0x1_0000) as u16) by (bit_vector);
        let u = number as u64;
        assert((number >= 0 ==> u == number) && (number < 0 ==> u == number
            + 0x1_0000_0000_0000_0000)) by (bit_vector)
            requires
                u == number as u64,
        ;
        assert(u as int % 0x1_0000 == m);
    }
    let c = FirmwareConfig { wifi_ssid, wifi_passwd, server_ip, server_port };
    Ok(c)
}

/// Reads the configuration from the `firmware` table of a TOML document.
pub fn parse_config(text: &str) -> (r: Result<FirmwareConfig, ConfigError>)
    ensures
        ({
            let want = if toml_document(text@) {
                config_of(
                    toml_string_at(text@, "firmware"@, "wifi_ssid"@),
                    toml_string_at(text@, "firmware"@, "wifi_passwd"@),
                    toml_string_at(text@, "firmware"@, "server_ip"@),
                    toml_integer_at(text@, "firmware"@, "server_port"@),
                )
            } else {
                Err(ConfigError::NotToml)
            };
            match r {
                Ok(c) => want == Ok::<ConfigView, ConfigError>(c@),
                Err(e) => want == Err::<ConfigView, ConfigError>(e),
            }
        }),
{
    if !toml_is_document(text) {
        return Err(ConfigError::NotToml);
    }
    let ssid = toml_string(text, "firmware", "wifi_ssid");
    let passwd = toml_string(text, "firmware", "wifi_passwd");
    let ip = toml_string(text, "firmware", "server_ip");
    let port = toml_integer(text, "firmware", "server_port");
    build_config(ssid, passwd, ip, port)
}

/// The constants that the front end is built with.
pub open spec fn constants_of(c: ConfigView) -> Seq<char> {
    "\npub const WIFI_SSID: &str = \""@ + c.wifi_ssid + "\";\npub const WIFI_PASSWD: &str = \""@
        + c.wifi_passwd + "\";\npub const SERVER_IP: core::net::Ipv4Addr = "@ + address_expression(
        c.server_ip.0,
        c.server_ip.1,
        c.server_ip.2,
        c.server_ip.3,
    ) + ";\npub const SERVER_PORT: u16 = "@ + decimal(c.server_port as nat) + ";\n"@
}

/// The constants that the front end is built with, as Rust source.
pub fn constants_source(c: &FirmwareConfig) -> (r: String)
    ensures
        r@ == constants_of(c@),
{
    let ip = ipv4_literal(c.server_ip);
    let mut out = String::new();
    out.append("\npub const WIFI_SSID: &str = \"");
    out.append(c.wifi_ssid.as_str());
    out.append("\";\npub const WIFI_PASSWD: &str = \"");
    out.append(c.wifi_passwd.as_str());
    out.append("\";\npub const SERVER_IP: core::net::Ipv4Addr = ");
    out.append(ip.as_str());
    out.append(";\npub const SERVER_PORT: u16 = ");
    append_decimal(&mut out, c.server_port as u64);
    out.append(";\n");
    assert(out@ =~= constants_of(c@));
    out
}

/// What a build says of its configuration.
pub open spec fn notice_of(c: ConfigView) -> Seq<char> {
    "cargo:warning=WiFi: "@ + c.wifi_ssid + " -> "@ + dotted(
        c.server_ip.0,
        c.server_ip.1,
        c.server_ip.2,
        c.server_ip.3,
    ) + ":"@ + decimal(c.server_port as nat)
}

/// What a build says of its configuration.
pub fn build_notice(c: &FirmwareConfig) -> (r: String)
    ensures
        r@ == notice_of(c@),
{
    let mut out = String::new();
    out.append("cargo:warning=WiFi: ");
    out.append(c.wifi_ssid.as_str());
    out.append(" -> ");
    append_decimal(&mut out, c.server_ip[0] as u64);
    out.append(".");
    append_decimal(&mut out, c.server_ip[1] as u64);
    out.append(".");
    append_decimal(&mut out, c.server_ip[2] as u64);
    out.append(".");
    append_decimal(&mut out, c.server_ip[3] as u64);
    out.append(":");
    append_decimal(&mut out, c.server_port as u64);
    assert(out@ =~= notice_of(c@));
    out
}

/// What a build says of its configuration does not depend on the password.
pub proof fn law_notice_keeps_the_password(c: ConfigView, passwd: Seq<char>)
    ensures
        notice_of(c) == notice_of(ConfigView { wifi_passwd: passwd, ..c }),
{
}

} // verus!
