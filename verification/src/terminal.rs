//! The command terminal of the devices: reading a command line, running it on a desktop,
//! router or switch, and the text it prints.

use vstd::prelude::*;
use vstd::string::{StrSliceExecFns, StringExecFns};
use crate::network::device::cable::{CableSimulator, EthernetPortView};
use crate::network::device::desktop::Desktop;
use crate::network::device::router::{interface_enabled, rip_started, RouteView, Router, RouterView};
use crate::network::device::switch::Switch;
use crate::network::ethernet::ByteSerializable;
use crate::network::ipv4::interface::{ipv4_views, receive_spec, Ipv4InterfaceView};
use crate::network::ipv4::{IcmpFrame, IcmpFrameView, IcmpType, Ipv4Address, Ipv4Frame, Ipv4FrameView};
use crate::repository::{decimal_text, int_text, DeviceKind};
use crate::tick::{ready_keys, scheduled, ticked, TickTimer, TimerEntryView, NANOS_PER_SEC};

verus! {

// ----- Reading numbers and addresses -----

pub open spec fn is_digit(c: char) -> bool {
    '0' <= c && c <= '9'
}

/// The value of a decimal digit.
pub open spec fn digit_value(c: char) -> nat {
    (c as int - 48) as nat
}

/// Every character is a decimal digit.
pub open spec fn all_digits(s: Seq<char>) -> bool {
    forall|i: int| 0 <= i < s.len() ==> is_digit(#[trigger] s[i])
}

/// The value of a string of decimal digits.
pub open spec fn digits_value(s: Seq<char>) -> nat
    decreases s.len(),
{
    if s.len() == 0 {
        0
    } else {
        digits_value(s.drop_last()) * 10 + digit_value(s.last())
    }
}

/// An unsigned integer in decimal, with an optional leading `+`, at most `max`: what `FromStr`
/// of an unsigned integer type accepts.
pub open spec fn parse_unsigned(s: Seq<char>, max: nat) -> Option<nat> {
    let t = if s.len() > 0 && s[0] == '+' { s.drop_first() } else { s };
    if t.len() > 0 && all_digits(t) && digits_value(t) <= max {
        Some(digits_value(t))
    } else {
        None
    }
}

/// The parts of `s` between the dots.
pub open spec fn split_dots(s: Seq<char>) -> Seq<Seq<char>>
    decreases s.len(),
{
    if s.len() == 0 {
        seq![Seq::empty()]
    } else {
        let prev = split_dots(s.drop_last());
        if s.last() == '.' {
            prev.push(Seq::empty())
        } else {
            prev.update(prev.len() - 1, prev.last().push(s.last()))
        }
    }
}

/// One field of a dotted IPv4 address: one to three digits, without a leading zero, at most 255.
pub open spec fn octet_ok(f: Seq<char>) -> bool {
    &&& 1 <= f.len() <= 3
    &&& all_digits(f)
    &&& (f.len() == 1 || f[0] != '0')
    &&& digits_value(f) <= 255
}

/// A dotted IPv4 address: four fields separated by dots, as `Ipv4Addr`'s `FromStr` accepts it.
pub open spec fn parse_ipv4(s: Seq<char>) -> Option<Seq<u8>> {
    let f = split_dots(s);
    if f.len() == 4 && octet_ok(f[0]) && octet_ok(f[1]) && octet_ok(f[2]) && octet_ok(f[3]) {
        Some(seq![digits_value(f[0]) as u8, digits_value(f[1]) as u8, digits_value(f[2]) as u8, digits_value(f[3]) as u8])
    } else {
        None
    }
}

proof fn lemma_digits_value_grows(s: Seq<char>, i: int)
    requires
        0 <= i <= s.len(),
    ensures
        digits_value(s.subrange(0, i)) <= digits_value(s),
    decreases s.len(),
{
    if i < s.len() {
        assert(s.drop_last().subrange(0, i) =~= s.subrange(0, i));
        lemma_digits_value_grows(s.drop_last(), i);
    } else {
        assert(s.subrange(0, i) =~= s);
    }
}

/// The value of a non-empty string of digits, when it is at most `max`.
fn digits_upto(s: &Vec<char>, max: u64) -> (r: Option<u64>)
    requires
        s@.len() > 0,
        all_digits(s@),
    ensures
        r == (if digits_value(s@) <= max { Some(digits_value(s@) as u64) } else { None }),
{
    let mut v: u64 = 0;
    let mut i: usize = 0;
    while i < s.len()
        invariant
            0 <= i <= s@.len(),
            all_digits(s@),
            v == digits_value(s@.subrange(0, i as int)),
            v <= max,
        decreases s@.len() - i,
    {
        assert(s@.subrange(0, i + 1).drop_last() =~= s@.subrange(0, i as int));
        let d = (s[i] as u32 - 48) as u64;
        assert(is_digit(s@[i as int]));
        if d > max || v > (max - d) / 10 {
            proof {
                assert(digits_value(s@.subrange(0, i + 1)) > max) by (nonlinear_arith)
                    requires
                        digits_value(s@.subrange(0, i + 1)) == v * 10 + d,
                        d > max || v > (max - d) / 10,
                        d <= 9;
                lemma_digits_value_grows(s@, i + 1);
            }
            return None;
        }
        assert(v * 10 + d <= max) by (nonlinear_arith)
            requires
                v <= (max - d) / 10,
                d <= 9;
        v = v * 10 + d;
        i = i + 1;
    }
    assert(s@.subrange(0, i as int) =~= s@);
    Some(v)
}

/// The characters of a string.
fn chars_of(s: &str) -> (r: Vec<char>)
    ensures
        r@ == s@,
{
    let mut r: Vec<char> = Vec::new();
    let n = s.unicode_len();
    let mut i: usize = 0;
    while i < n
        invariant
            0 <= i <= n,
            n == s@.len(),
            r@ == s@.subrange(0, i as int),
        decreases n - i,
    {
        r.push(s.get_char(i));
        i = i + 1;
        assert(r@ =~= s@.subrange(0, i as int));
    }
    assert(r@ =~= s@);
    r
}

/// Whether every character is a digit.
fn check_digits(s: &Vec<char>) -> (r: bool)
    ensures
        r == all_digits(s@),
{
    let mut i: usize = 0;
    while i < s.len()
        invariant
            0 <= i <= s@.len(),
            forall|k: int| 0 <= k < i ==> is_digit(#[trigger] s@[k]),
        decreases s@.len() - i,
    {
        if !('0' <= s[i] && s[i] <= '9') {
            return false;
        }
        i = i + 1;
    }
    true
}

/// Reads an unsigned integer at most `max`; see `parse_unsigned`.
pub fn read_unsigned(s: &str, max: u64) -> (r: Option<u64>)
    ensures
        r == (match parse_unsigned(s@, max as nat) {
            Some(v) => Some(v as u64),
            None => None::<u64>,
        }),
{
    let cs = chars_of(s);
    let mut t: Vec<char> = Vec::new();
    let start: usize = if cs.len() > 0 && cs[0] == '+' { 1 } else { 0 };
    let mut i = start;
    while i < cs.len()
        invariant
            start <= i <= cs@.len(),
            t@ == cs@.subrange(start as int, i as int),
        decreases cs@.len() - i,
    {
        t.push(cs[i]);
        i = i + 1;
        assert(t@ =~= cs@.subrange(start as int, i as int));
    }
    assert(t@ =~= (if s@.len() > 0 && s@[0] == '+' { s@.drop_first() } else { s@ }));
    if t.len() == 0 || !check_digits(&t) {
        return None;
    }
    digits_upto(&t, max)
}

/// Reads a dotted IPv4 address; see `parse_ipv4`.
pub fn read_ipv4(s: &str) -> (r: Option<[u8; 4]>)
    ensures
        match r {
            Some(a) => parse_ipv4(s@) == Some(a@),
            None => parse_ipv4(s@) is None,
        },
{
    let cs = chars_of(s);
    let mut parts: Vec<Vec<char>> = Vec::new();
    parts.push(Vec::new());
    assert(parts@.map_values(|v: Vec<char>| v@) =~= split_dots(cs@.subrange(0, 0)));
    let mut i: usize = 0;
    while i < cs.len()
        invariant
            0 <= i <= cs@.len(),
            parts@.len() >= 1,
            parts@.map_values(|v: Vec<char>| v@) == split_dots(cs@.subrange(0, i as int)),
        decreases cs@.len() - i,
    {
        let ghost prev = split_dots(cs@.subrange(0, i as int));
        assert(cs@.subrange(0, i + 1).drop_last() =~= cs@.subrange(0, i as int));
        assert(cs@.subrange(0, i + 1).last() == cs@[i as int]);
        let c = cs[i];
        if c == '.' {
            parts.push(Vec::new());
            assert(parts@.map_values(|v: Vec<char>| v@) =~= prev.push(Seq::empty()));
        } else {
            let mut last = parts.pop().unwrap();
            let ghost l0 = last@;
            assert(l0 == prev.last());
            last.push(c);
            parts.push(last);
            assert(parts@.map_values(|v: Vec<char>| v@) =~= prev.update(prev.len() - 1, prev.last().push(c)));
        }
        i = i + 1;
    }
    assert(cs@.subrange(0, i as int) =~= cs@);
    let ghost f = split_dots(s@);
    if parts.len() != 4 {
        return None;
    }
    assert(f.len() == 4);
    let mut out = [0u8; 4];
    let mut k: usize = 0;
    while k < 4
        invariant
            0 <= k <= 4,
            parts@.len() == 4,
            f == split_dots(s@),
            f.len() == 4,
            parts@.map_values(|v: Vec<char>| v@) == f,
            forall|j: int| 0 <= j < k ==> octet_ok(#[trigger] f[j]) && out@[j] as nat == digits_value(f[j]),
        decreases 4 - k,
    {
        let p = &parts[k];
        assert(p@ == f[k as int]);
        if p.len() < 1 || p.len() > 3 || !check_digits(p) || (p.len() > 1 && p[0] == '0') {
            assert(!octet_ok(f[k as int]));
            assert(k == 0 || k == 1 || k == 2 || k == 3);
            return None;
        }
        match digits_upto(p, 255) {
            Some(v) => {
                let ghost o0 = out@;
                assert(v <= 255 && v == digits_value(f[k as int]));
                out[k] = v as u8;
                assert(out@ =~= o0.update(k as int, v as u8));
                assert(out@[k as int] as nat == digits_value(f[k as int]));
                assert(octet_ok(f[k as int]));
                assert forall|j: int| 0 <= j < k + 1 implies octet_ok(#[trigger] f[j]) && out@[j] as nat == digits_value(f[j]) by {
                    if j < k {
                        assert(out@[j] == o0[j]);
                    }
                }
            },
            None => {
                assert(!octet_ok(f[k as int]));
                assert(k == 0 || k == 1 || k == 2 || k == 3);
                return None;
            },
        }
        k = k + 1;
    }
    assert(out@ =~= seq![digits_value(f[0]) as u8, digits_value(f[1]) as u8, digits_value(f[2]) as u8, digits_value(f[3]) as u8]);
    Some(out)
}

// ----- Printing numbers and addresses -----

/// An address in dotted decimal.
pub open spec fn ipv4_text(a: Seq<u8>) -> Seq<char> {
    int_text(a[0] as int) + "."@ + int_text(a[1] as int) + "."@ + int_text(a[2] as int) + "."@ + int_text(a[3] as int)
}

/// Prints an address in dotted decimal.
pub fn ipv4_string(a: &[u8; 4]) -> (r: String)
    ensures
        r@ == ipv4_text(a@),
{
    let s0 = decimal_text(a[0] as i32);
    let s1 = decimal_text(a[1] as i32);
    let s2 = decimal_text(a[2] as i32);
    let s3 = decimal_text(a[3] as i32);
    s0.concat(".").concat(s1.as_str()).concat(".").concat(s2.as_str()).concat(".").concat(s3.as_str())
}

// ----- Commands -----

/// A command line read for a terminal.
#[derive(Debug, PartialEq, Eq)]
pub enum Command {
    /// `help`: lists the commands of the device.
    Help,
    /// `clear`: clears the screen.
    Clear,
    /// `ipset <ip> <mask>` on a desktop.
    IpSet(Ipv4Address, Ipv4Address),
    /// `dgateway <ip>` on a desktop.
    DGateway(Ipv4Address),
    /// `ipconfig`: the IP configuration of a desktop or a router.
    IpConfig,
    /// `ping <ip>` on a desktop.
    Ping(Ipv4Address),
    /// `enable <port> <ip> <mask>` on a router.
    Enable(usize, Ipv4Address, Ipv4Address),
    /// `rip <port>` on a router.
    Rip(usize),
    /// `routes` on a router.
    Routes,
    /// A word that is no command of the device.
    Invalid(String),
}

/// The abstract content of a command.
pub enum CommandView {
    Help,
    Clear,
    IpSet(Seq<u8>, Seq<u8>),
    DGateway(Seq<u8>),
    IpConfig,
    Ping(Seq<u8>),
    Enable(usize, Seq<u8>, Seq<u8>),
    Rip(usize),
    Routes,
    Invalid(Seq<char>),
}

impl View for Command {
    type V = CommandView;

    open spec fn view(&self) -> CommandView {
        match self {
            Command::Help => CommandView::Help,
            Command::Clear => CommandView::Clear,
            Command::IpSet(a, m) => CommandView::IpSet(a@, m@),
            Command::DGateway(g) => CommandView::DGateway(g@),
            Command::IpConfig => CommandView::IpConfig,
            Command::Ping(a) => CommandView::Ping(a@),
            Command::Enable(p, a, m) => CommandView::Enable(*p, a@, m@),
            Command::Rip(p) => CommandView::Rip(*p),
            Command::Routes => CommandView::Routes,
            Command::Invalid(w) => CommandView::Invalid(w@),
        }
    }
}

pub open spec fn not_an_ip(w: Seq<char>) -> Seq<char> {
    "Error: '"@ + w + "' is not a valid IPv4 address"@
}

pub open spec fn not_a_mask(w: Seq<char>) -> Seq<char> {
    "Error: '"@ + w + "' is not a valid subnet mask"@
}

pub open spec fn not_a_port(w: Seq<char>) -> Seq<char> {
    "Error: '"@ + w + "' is not a valid port"@
}

/// A router port number: an unsigned integer below 8.
pub open spec fn parse_port(w: Seq<char>) -> Option<usize> {
    match parse_unsigned(w, usize::MAX as nat) {
        Some(p) => if p < 8 { Some(p as usize) } else { None },
        None => None,
    }
}

/// Reading the words of a command line for the terminal of a device of the kind: the first
/// word names the command and the others are its arguments. A command of the device with
/// arguments it cannot take gives its usage or the error to print; a word that names no command
/// of the device gives `Invalid` (no words give `Invalid` of the empty word).
pub open spec fn parsed_command(kind: DeviceKind, words: Seq<Seq<char>>) -> Result<CommandView, Seq<char>> {
    let cmd = if words.len() > 0 { words[0] } else { Seq::empty() };
    let args = if words.len() > 0 { words.drop_first() } else { Seq::empty() };
    if cmd == "help"@ {
        Ok(CommandView::Help)
    } else if cmd == "clear"@ {
        Ok(CommandView::Clear)
    } else {
        match kind {
            DeviceKind::Desktop => if cmd == "ipset"@ {
                if args.len() != 2 {
                    Err("Usage: ipset <ipv4 addr> <subnet mask>"@)
                } else {
                    match parse_ipv4(args[0]) {
                        None => Err(not_an_ip(args[0])),
                        Some(a) => match parse_ipv4(args[1]) {
                            None => Err(not_a_mask(args[1])),
                            Some(m) => Ok(CommandView::IpSet(a, m)),
                        },
                    }
                }
            } else if cmd == "dgateway"@ {
                if args.len() != 1 {
                    Err("Usage: dgateway <ipv4 addr>"@)
                } else {
                    match parse_ipv4(args[0]) {
                        None => Err(not_an_ip(args[0])),
                        Some(a) => Ok(CommandView::DGateway(a)),
                    }
                }
            } else if cmd == "ipconfig"@ {
                Ok(CommandView::IpConfig)
            } else if cmd == "ping"@ {
                if args.len() != 1 {
                    Err("Usage: ping <ipv4 addr>"@)
                } else {
                    match parse_ipv4(args[0]) {
                        None => Err(not_an_ip(args[0])),
                        Some(a) => Ok(CommandView::Ping(a)),
                    }
                }
            } else {
                Ok(CommandView::Invalid(cmd))
            },
            DeviceKind::Router => if cmd == "enable"@ {
                if args.len() != 3 {
                    Err("Usage: enable <port> <ip> <subnet>"@)
                } else {
                    match parse_port(args[0]) {
                        None => Err(not_a_port(args[0])),
                        Some(p) => match parse_ipv4(args[1]) {
                            None => Err(not_an_ip(args[1])),
                            Some(a) => match parse_ipv4(args[2]) {
                                None => Err(not_a_mask(args[2])),
                                Some(m) => Ok(CommandView::Enable(p, a, m)),
                            },
                        },
                    }
                }
            } else if cmd == "rip"@ {
                if args.len() != 1 {
                    Err("Usage: rip <port>"@)
                } else {
                    match parse_port(args[0]) {
                        None => Err(not_a_port(args[0])),
                        Some(p) => Ok(CommandView::Rip(p)),
                    }
                }
            } else if cmd == "routes"@ {
                Ok(CommandView::Routes)
            } else if cmd == "ipconfig"@ {
                Ok(CommandView::IpConfig)
            } else {
                Ok(CommandView::Invalid(cmd))
            },
            DeviceKind::Switch => Ok(CommandView::Invalid(cmd)),
        }
    }
}

/// The word is the given text.
fn word_is(w: &String, text: &str) -> (r: bool)
    ensures
        r == (w@ == text@),
{
    let t = String::from_str(text);
    *w == t
}

fn quoted_error(w: &String, tail: &str) -> (r: String)
    ensures
        r@ == "Error: '"@ + w@ + tail@,
{
    String::from_str("Error: '").concat(w.as_str()).concat(tail)
}

fn read_ip_arg(w: &String) -> (r: Option<Ipv4Address>)
    ensures
        match r {
            Some(a) => parse_ipv4(w@) == Some(a@),
            None => parse_ipv4(w@) is None,
        },
{
    read_ipv4(w.as_str())
}

fn read_port_arg(w: &String) -> (r: Option<usize>)
    ensures
        r == parse_port(w@),
{
    match read_unsigned(w.as_str(), usize::MAX as u64) {
        Some(p) => if p < 8 {
            Some(p as usize)
        } else {
            None
        },
        None => None,
    }
}

/// Reads the words of a command line; see `parsed_command`.
pub fn parse_command(kind: DeviceKind, words: Vec<String>) -> (r: Result<Command, String>)
    ensures
        (match r {
            Ok(c) => Ok(c@),
            Err(e) => Err(e@),
        }) == parsed_command(kind, words@.map_values(|w: String| w@)),
{
    let ghost ws = words@.map_values(|w: String| w@);
    let empty = String::new();
    let cmd: &String = if words.len() > 0 { &words[0] } else { &empty };
    let n = words.len();
    proof {
        if n > 0 {
            assert(ws.drop_first().len() == n - 1);
            assert(forall|i: int| 0 <= i < n - 1 ==> #[trigger] ws.drop_first()[i] == words@[i + 1]@);
        }
    }
    if word_is(cmd, "help") {
        return Ok(Command::Help);
    }
    if word_is(cmd, "clear") {
        return Ok(Command::Clear);
    }
    match kind {
        DeviceKind::Desktop => {
            if word_is(cmd, "ipset") {
                if n != 3 {
                    return Err(String::from_str("Usage: ipset <ipv4 addr> <subnet mask>"));
                }
                match read_ip_arg(&words[1]) {
                    None => Err(quoted_error(&words[1], "' is not a valid IPv4 address")),
                    Some(a) => match read_ip_arg(&words[2]) {
                        None => Err(quoted_error(&words[2], "' is not a valid subnet mask")),
                        Some(m) => Ok(Command::IpSet(a, m)),
                    },
                }
            } else if word_is(cmd, "dgateway") {
                if n != 2 {
                    return Err(String::from_str("Usage: dgateway <ipv4 addr>"));
                }
                match read_ip_arg(&words[1]) {
                    None => Err(quoted_error(&words[1], "' is not a valid IPv4 address")),
                    Some(a) => Ok(Command::DGateway(a)),
                }
            } else if word_is(cmd, "ipconfig") {
                Ok(Command::IpConfig)
            } else if word_is(cmd, "ping") {
                if n != 2 {
                    return Err(String::from_str("Usage: ping <ipv4 addr>"));
                }
                match read_ip_arg(&words[1]) {
                    None => Err(quoted_error(&words[1], "' is not a valid IPv4 address")),
                    Some(a) => Ok(Command::Ping(a)),
                }
            } else {
                Ok(Command::Invalid(cmd.clone()))
            }
        },
        DeviceKind::Router => {
            if word_is(cmd, "enable") {
                if n != 4 {
                    return Err(String::from_str("Usage: enable <port> <ip> <subnet>"));
                }
                match read_port_arg(&words[1]) {
                    None => Err(quoted_error(&words[1], "' is not a valid port")),
                    Some(p) => match read_ip_arg(&words[2]) {
                        None => Err(quoted_error(&words[2], "' is not a valid IPv4 address")),
                        Some(a) => match read_ip_arg(&words[3]) {
                            None => Err(quoted_error(&words[3], "' is not a valid subnet mask")),
                            Some(m) => Ok(Command::Enable(p, a, m)),
                        },
                    },
                }
            } else if word_is(cmd, "rip") {
                if n != 2 {
                    return Err(String::from_str("Usage: rip <port>"));
                }
                match read_port_arg(&words[1]) {
                    None => Err(quoted_error(&words[1], "' is not a valid port")),
                    Some(p) => Ok(Command::Rip(p)),
                }
            } else if word_is(cmd, "routes") {
                Ok(Command::Routes)
            } else if word_is(cmd, "ipconfig") {
                Ok(Command::IpConfig)
            } else {
                Ok(Command::Invalid(cmd.clone()))
            }
        },
        DeviceKind::Switch => Ok(Command::Invalid(cmd.clone())),
    }
}

// ----- The terminal -----

/// The text of a hexadecimal digit.
pub open spec fn hex_digit_text(d: u8) -> Seq<char> {
    match d {
        0 => "0"@,
        1 => "1"@,
        2 => "2"@,
        3 => "3"@,
        4 => "4"@,
        5 => "5"@,
        6 => "6"@,
        7 => "7"@,
        8 => "8"@,
        9 => "9"@,
        10 => "A"@,
        11 => "B"@,
        12 => "C"@,
        13 => "D"@,
        14 => "E"@,
        _ => "F"@,
    }
}

fn hex_digit_str(d: u8) -> (r: &'static str)
    ensures
        r@ == hex_digit_text(d),
{
    match d {
        0 => "0",
        1 => "1",
        2 => "2",
        3 => "3",
        4 => "4",
        5 => "5",
        6 => "6",
        7 => "7",
        8 => "8",
        9 => "9",
        10 => "A",
        11 => "B",
        12 => "C",
        13 => "D",
        14 => "E",
        _ => "F",
    }
}

/// A byte as two upper-case hexadecimal digits.
pub open spec fn hex_text(b: u8) -> Seq<char> {
    hex_digit_text(b / 16) + hex_digit_text(b % 16)
}

/// A MAC address as six bytes in hexadecimal separated by colons.
pub open spec fn mac_text(m: Seq<u8>) -> Seq<char> {
    hex_text(m[0]) + ":"@ + hex_text(m[1]) + ":"@ + hex_text(m[2]) + ":"@ + hex_text(m[3]) + ":"@ + hex_text(m[4])
        + ":"@ + hex_text(m[5])
}

fn hex_string(b: u8) -> (r: String)
    ensures
        r@ == hex_text(b),
{
    String::from_str(hex_digit_str(b / 16)).concat(hex_digit_str(b % 16))
}

fn mac_string(m: &[u8; 6]) -> (r: String)
    ensures
        r@ == mac_text(m@),
{
    let h0 = hex_string(m[0]);
    let h1 = hex_string(m[1]);
    let h2 = hex_string(m[2]);
    let h3 = hex_string(m[3]);
    let h4 = hex_string(m[4]);
    let h5 = hex_string(m[5]);
    h0.concat(":").concat(h1.as_str()).concat(":").concat(h2.as_str()).concat(":").concat(h3.as_str()).concat(":").concat(
        h4.as_str(),
    ).concat(":").concat(h5.as_str())
}

/// Timer key of the wait for a ping's answer.
pub const PING_WAIT: u64 = 0;

/// The abstract state of a terminal.
#[verifier::ext_equal]
pub struct TerminalView {
    pub out: Seq<Seq<char>>,
    pub awaiting_ping: bool,
    pub timer: Seq<TimerEntryView>,
}

impl TerminalView {
    /// The terminal with `lines` printed.
    pub open spec fn print(self, lines: Seq<Seq<char>>) -> Self {
        TerminalView { out: self.out + lines, ..self }
    }
}

/// A terminal: the lines it printed, whether it waits for the answer to a ping, and the timer
/// of that wait.
pub struct TerminalState {
    pub out_buf: Vec<String>,
    pub awaiting_ping: bool,
    pub timer: TickTimer,
}

impl View for TerminalState {
    type V = TerminalView;

    open spec fn view(&self) -> TerminalView {
        TerminalView { out: self.out_buf@.map_values(|l: String| l@), awaiting_ping: self.awaiting_ping, timer: self.timer@ }
    }
}

/// What `clear` prints: 100 empty lines.
pub open spec fn clear_lines() -> Seq<Seq<char>> {
    Seq::new(100, |k: int| Seq::<char>::empty())
}

/// What `n` timeouts of a ping print.
pub open spec fn timeout_lines(n: nat) -> Seq<Seq<char>> {
    Seq::new(n, |k: int| "'ping' timed out."@)
}

impl TerminalState {
    /// An empty terminal that waits for nothing.
    pub fn new() -> (r: TerminalState)
        ensures
            r@ == (TerminalView { out: Seq::empty(), awaiting_ping: false, timer: Seq::empty() }),
    {
        let r = TerminalState { out_buf: Vec::new(), awaiting_ping: false, timer: TickTimer::new() };
        assert(r@.out =~= Seq::<Seq<char>>::empty());
        r
    }

    /// Prints one line.
    pub fn print(&mut self, line: String)
        ensures
            final(self)@ == old(self)@.print(seq![line@]),
    {
        self.out_buf.push(line);
        assert(self@.out =~= old(self)@.out + seq![line@]);
    }

    /// Prints one line given as a literal.
    fn print_str(&mut self, line: &str)
        ensures
            final(self)@ == old(self)@.print(seq![line@]),
    {
        self.print(String::from_str(line));
    }

    /// Prints 100 empty lines.
    fn print_clear(&mut self)
        ensures
            final(self)@ == old(self)@.print(clear_lines()),
    {
        let mut i: usize = 0;
        while i < 100
            invariant
                0 <= i <= 100,
                self@ == old(self)@.print(Seq::new(i as nat, |k: int| Seq::<char>::empty())),
            decreases 100 - i,
        {
            let ghost before = self@;
            self.print(String::new());
            i = i + 1;
            assert(self@.out =~= old(self)@.out + Seq::new(i as nat, |k: int| Seq::<char>::empty()));
        }
    }

    /// Prints the timeout of a ping `n` times.
    fn print_timeouts(&mut self, n: usize)
        ensures
            final(self)@ == old(self)@.print(timeout_lines(n as nat)),
    {
        let mut i: usize = 0;
        while i < n
            invariant
                0 <= i <= n,
                self@ == old(self)@.print(timeout_lines(i as nat)),
            decreases n - i,
        {
            self.print_str("'ping' timed out.");
            i = i + 1;
            assert(self@.out =~= old(self)@.out + timeout_lines(i as nat));
        }
    }
}

/// What `help` prints on a desktop.
pub open spec fn desktop_help() -> Seq<Seq<char>> {
    seq![
        "help: Prints this help message"@,
        "clear: Clear the terminal screen"@,
        "ipset: Set the IP address of the desktop. Usage: ipset <ipv4 addr> <subnet addr>"@,
        "dgateway: Set the default gateway of the desktop. Usage: dgateway <ipv4 addr>"@,
        "ipconfig: Print the current IP configuration of the desktop"@,
        "ping: Ping an IP address. Usage: ping <ipv4 addr>"@,
    ]
}

/// What a terminal prints for a word that names no command.
pub open spec fn invalid_text(w: Seq<char>) -> Seq<char> {
    "Error: '"@ + w + "' is not a valid command"@
}

/// What `ipconfig` prints on a desktop.
pub open spec fn desktop_config(v: Ipv4InterfaceView) -> Seq<Seq<char>> {
    seq![
        "IP Address: "@ + ipv4_text(v.ip_address),
        "Subnet Mask: "@ + ipv4_text(v.subnet_mask),
        match v.default_gateway {
            Some(g) => "Default Gateway: "@ + ipv4_text(g),
            None => "Default Gateway: None"@,
        },
        "MAC Address: "@ + mac_text(v.ethernet.mac_address@),
    ]
}

/// Running a command on a desktop at `now`: `help` and `clear` print; `ipset` and `dgateway` set
/// the address and mask or the default gateway and say so; `ipconfig` prints the configuration;
/// `ping` sends an echo request and, when it left or waits for ARP, waits 3 seconds for the
/// answer, else prints the error; a word that names no command prints an error; the commands
/// of a router change nothing.
pub open spec fn desktop_executed(v: Ipv4InterfaceView, t: TerminalView, ports: Seq<EthernetPortView>, cmd: CommandView, now: u128)
    -> (Ipv4InterfaceView, TerminalView, Seq<EthernetPortView>) {
    match cmd {
        CommandView::Help => (v, t.print(desktop_help()), ports),
        CommandView::Clear => (v, t.print(clear_lines()), ports),
        CommandView::IpSet(a, m) => (
            Ipv4InterfaceView { ip_address: a, subnet_mask: m, ..v },
            t.print(seq!["IP address set to "@ + ipv4_text(a) + " with subnet mask "@ + ipv4_text(m)]),
            ports,
        ),
        CommandView::DGateway(g) => (
            Ipv4InterfaceView { default_gateway: Some(g), ..v },
            t.print(seq!["Default gateway set to "@ + ipv4_text(g)]),
            ports,
        ),
        CommandView::IpConfig => (v, t.print(desktop_config(v)), ports),
        CommandView::Ping(a) => {
            let r = v.send_icmp_spec(ports, a, IcmpType::EchoRequest);
            match r.2 {
                Ok(_) => (
                    r.0,
                    TerminalView {
                        out: t.out.push("Pinging "@ + ipv4_text(a) + "..."@),
                        awaiting_ping: true,
                        timer: scheduled(t.timer, PING_WAIT, 3, false, now),
                    },
                    r.1,
                ),
                Err(_) => (r.0, t.print(seq!["Error: "@ + "Destination is unreachable. No default gateway."@]), r.1),
            }
        },
        CommandView::Invalid(w) => (v, t.print(seq![invalid_text(w)]), ports),
        _ => (v, t, ports),
    }
}

/// An echo reply to `ip`.
pub open spec fn is_pong(f: Ipv4FrameView, ip: Seq<u8>) -> bool {
    &&& f.destination == ip
    &&& f.protocol == 1
    &&& IcmpFrameView::from_bytes(f.data) is Ok
    &&& (IcmpFrameView::from_bytes(f.data)->Ok_0).icmp_type == 0
}

pub open spec fn has_pong(fs: Seq<Ipv4FrameView>, ip: Seq<u8>) -> bool {
    exists|i: int| 0 <= i < fs.len() && is_pong(#[trigger] fs[i], ip)
}

/// One tick of a desktop's terminal at `now`. A terminal that waits for a ping's answer prints
/// "'ping' timed out." for each ready key of its timer and stops waiting if there was one; the
/// timer ticks; a terminal still waiting has the desktop receive its frames, and prints "Pong!"
/// and stops waiting when one is an echo reply to the desktop.
pub open spec fn desktop_terminal_ticked(v: Ipv4InterfaceView, t: TerminalView, ports: Seq<EthernetPortView>, now: u128)
    -> (Ipv4InterfaceView, TerminalView, Seq<EthernetPortView>) {
    let timer1 = ticked(t.timer, now);
    if !t.awaiting_ping {
        (v, TerminalView { timer: timer1, ..t }, ports)
    } else {
        let ready = ready_keys(t.timer, now);
        let out1 = t.out + timeout_lines(ready.len());
        if ready.len() > 0 {
            (v, TerminalView { out: out1, awaiting_ping: false, timer: timer1 }, ports)
        } else {
            let r = receive_spec(v, ports);
            if has_pong(r.2, r.0.ip_address) {
                (r.0, TerminalView { out: out1.push("Pong!"@), awaiting_ping: false, timer: timer1 }, r.1)
            } else {
                (r.0, TerminalView { out: out1, awaiting_ping: true, timer: timer1 }, r.1)
            }
        }
    }
}

/// A waiting terminal prints "Pong!" only on an echo reply: when one tick of a terminal that
/// waits for a ping's answer (and has no timeout due) prints a line, the desktop has received an
/// ICMP frame (protocol 1) addressed to it whose message has type 0 (echo reply), and then the
/// line is "Pong!" and the wait ends. Without such a frame nothing is printed and the wait goes
/// on.
pub proof fn lemma_pong_only_on_echo_reply(v: Ipv4InterfaceView, t: TerminalView, ports: Seq<EthernetPortView>, now: u128)
    requires
        t.awaiting_ping,
        ready_keys(t.timer, now).len() == 0,
    ensures
        ({
            let r = desktop_terminal_ticked(v, t, ports, now);
            let rx = receive_spec(v, ports);
            let replied = exists|i: int|
                0 <= i < rx.2.len() && (#[trigger] rx.2[i]).destination == rx.0.ip_address && rx.2[i].protocol == 1
                    && IcmpFrameView::from_bytes(rx.2[i].data) is Ok
                    && (IcmpFrameView::from_bytes(rx.2[i].data)->Ok_0).icmp_type == 0;
            &&& r.1.out.len() > t.out.len() ==> replied
            &&& replied ==> r.1.out == t.out.push("Pong!"@) && !r.1.awaiting_ping
            &&& !replied ==> r.1.out == t.out && r.1.awaiting_ping
        }),
{
    let rx = receive_spec(v, ports);
    assert(timeout_lines(0) =~= Seq::<Seq<char>>::empty());
    assert(t.out + timeout_lines(0) =~= t.out);
    if has_pong(rx.2, rx.0.ip_address) {
        let i = choose|i: int| 0 <= i < rx.2.len() && is_pong(#[trigger] rx.2[i], rx.0.ip_address);
        assert(is_pong(rx.2[i], rx.0.ip_address));
    }
}

fn ip_eq(a: &Ipv4Address, b: &Ipv4Address) -> (r: bool)
    ensures
        r == (a@ == b@),
{
    let r = a[0] == b[0] && a[1] == b[1] && a[2] == b[2] && a[3] == b[3];
    if r {
        assert(a@ =~= b@);
    } else {
        assert(a@ != b@) by {
            if a@ == b@ {
                assert(a@[0] == b@[0] && a@[1] == b@[1] && a@[2] == b@[2] && a@[3] == b@[3]);
            }
        }
    }
    r
}

/// Whether a frame is an echo reply to `ip`.
fn frame_is_pong(f: Ipv4Frame, ip: &Ipv4Address) -> (r: bool)
    ensures
        r == is_pong(f@, ip@),
{
    if !ip_eq(&f.destination, ip) || f.protocol != 1 {
        return false;
    }
    match IcmpFrame::from_bytes(f.data) {
        Ok(icmp) => icmp.icmp_type == 0,
        Err(_) => false,
    }
}

impl Desktop {
    /// Runs a command at `now`; see `desktop_executed`.
    pub fn execute(&mut self, term: &mut TerminalState, sim: &mut CableSimulator, cmd: Command, now: u128)
        requires
            old(sim).wf(),
            old(self).interface.valid_in(old(sim)@.ports),
            now + 3 * NANOS_PER_SEC <= u128::MAX,
        ensures
            final(sim).wf(),
            final(sim)@.simulated == old(sim)@.simulated,
            final(sim)@.ports.len() == old(sim)@.ports.len(),
            final(self).interface@.ethernet == old(self).interface@.ethernet,
            (final(self).interface@, final(term)@, final(sim)@.ports) == desktop_executed(
                old(self).interface@,
                old(term)@,
                old(sim)@.ports,
                cmd@,
                now,
            ),
    {
        match cmd {
            Command::Help => {
                let ghost t0 = term@;
                term.print_str("help: Prints this help message");
                term.print_str("clear: Clear the terminal screen");
                term.print_str("ipset: Set the IP address of the desktop. Usage: ipset <ipv4 addr> <subnet addr>");
                term.print_str("dgateway: Set the default gateway of the desktop. Usage: dgateway <ipv4 addr>");
                term.print_str("ipconfig: Print the current IP configuration of the desktop");
                term.print_str("ping: Ping an IP address. Usage: ping <ipv4 addr>");
                assert(term@.out =~= t0.out + desktop_help());
            },
            Command::Clear => term.print_clear(),
            Command::IpSet(a, m) => {
                self.interface.set_address(a, m);
                let line = String::from_str("IP address set to ").concat(ipv4_string(&a).as_str()).concat(" with subnet mask ").concat(
                    ipv4_string(&m).as_str(),
                );
                term.print(line);
            },
            Command::DGateway(g) => {
                self.interface.set_default_gateway(Some(g));
                let line = String::from_str("Default gateway set to ").concat(ipv4_string(&g).as_str());
                term.print(line);
            },
            Command::IpConfig => {
                let ghost t0 = term@;
                let ip = self.interface.ip_address();
                let mask = self.interface.subnet_mask();
                term.print(String::from_str("IP Address: ").concat(ipv4_string(&ip).as_str()));
                term.print(String::from_str("Subnet Mask: ").concat(ipv4_string(&mask).as_str()));
                match self.interface.default_gateway() {
                    Some(g) => term.print(String::from_str("Default Gateway: ").concat(ipv4_string(&g).as_str())),
                    None => term.print_str("Default Gateway: None"),
                }
                let mac = self.interface.ethernet().mac_address;
                term.print(String::from_str("MAC Address: ").concat(mac_string(&mac).as_str()));
                assert(term@.out =~= t0.out + desktop_config(self.interface@));
            },
            Command::Ping(a) => {
                match self.interface.send_icmp(sim, a, IcmpType::EchoRequest) {
                    Ok(_) => {
                        let line = String::from_str("Pinging ").concat(ipv4_string(&a).as_str()).concat("...");
                        term.print(line);
                        term.awaiting_ping = true;
                        term.timer.schedule(PING_WAIT, 3, false, now);
                    },
                    Err(e) => {
                        term.print(String::from_str("Error: ").concat(e));
                    },
                }
            },
            Command::Invalid(w) => {
                let line = String::from_str("Error: '").concat(w.as_str()).concat("' is not a valid command");
                term.print(line);
            },
            _ => {},
        }
    }

    /// One tick of the terminal at `now`; see `desktop_terminal_ticked`.
    pub fn terminal_tick(&mut self, term: &mut TerminalState, sim: &mut CableSimulator, now: u128)
        requires
            old(sim).wf(),
            old(self).interface.valid_in(old(sim)@.ports),
        ensures
            final(sim).wf(),
            final(sim)@.simulated == old(sim)@.simulated,
            final(sim)@.ports.len() == old(sim)@.ports.len(),
            final(self).interface@.ethernet == old(self).interface@.ethernet,
            (final(self).interface@, final(term)@, final(sim)@.ports) == desktop_terminal_ticked(
                old(self).interface@,
                old(term)@,
                old(sim)@.ports,
                now,
            ),
    {
        if !term.awaiting_ping {
            term.timer.tick(now);
            return;
        }
        let ready = term.timer.ready(now);
        term.print_timeouts(ready.len());
        term.timer.tick(now);
        if ready.len() > 0 {
            term.awaiting_ping = false;
            return;
        }
        let mut frames = self.interface.receive(sim);
        let ip = self.interface.ip_address();
        let ghost fs = ipv4_views(frames@);
        let ghost n = fs.len();
        let ghost t1 = term@;
        let ghost i1 = self.interface@;
        let ghost s1 = sim@;
        #[verifier::loop_isolation(false)]
        while frames.len() > 0
            invariant
                term@ == t1,
                self.interface@ == i1,
                sim@ == s1,
                sim.wf(),
                ip@ == i1.ip_address,
                n == fs.len(),
                frames@.len() <= n,
                ipv4_views(frames@) == fs.subrange(n - frames@.len(), n as int),
                forall|j: int| 0 <= j < n - frames@.len() ==> !is_pong(#[trigger] fs[j], ip@),
            decreases frames@.len(),
        {
            let ghost rest = frames@;
            let ghost k = n - rest.len();
            let f = frames.remove(0);
            assert(ipv4_views(rest)[0] == f@);
            assert(fs[k] == f@);
            assert(ipv4_views(frames@) =~= fs.subrange(n - frames@.len(), n as int)) by {
                assert forall|j: int| 0 <= j < frames@.len() implies ipv4_views(frames@)[j] == fs[n - frames@.len() + j] by {
                    assert(frames@[j] == rest[j + 1]);
                    assert(ipv4_views(rest)[j + 1] == fs.subrange(k, n as int)[j + 1]);
                }
            }
            if frame_is_pong(f, &ip) {
                term.print_str("Pong!");
                term.awaiting_ping = false;
                return;
            }
        }
    }
}

// ----- Router and switch terminals -----

/// What `help` prints on a router.
pub open spec fn router_help() -> Seq<Seq<char>> {
    seq![
        "help: Prints this help message"@,
        "clear: Clear the terminal screen"@,
        "enable: Enable a port. Usage: enable <port> <ip> <subnet>"@,
        "rip: Enable or disable RIP. Usage: rip <port>"@,
        "routes: Print the routing table"@,
        "ipconfig: Print the current IP configuration of the router"@,
    ]
}

/// What `help` prints on a switch.
pub open spec fn switch_help() -> Seq<Seq<char>> {
    seq!["help: Prints this help message"@, "clear: Clear the terminal screen"@]
}

pub open spec fn bool_text(b: bool) -> Seq<char> {
    if b { "true"@ } else { "false"@ }
}

/// The line of `routes` for one entry of the routing table.
pub open spec fn route_line(e: (Seq<u8>, RouteView)) -> Seq<char> {
    ipv4_text(e.0) + " -> "@ + ipv4_text(e.1.ip_address) + " via port "@ + int_text(e.1.port as int)
}

/// What `routes` prints: a title and one line per entry of the routing table, in order.
pub open spec fn routes_lines(rt: RouterView) -> Seq<Seq<char>> {
    seq!["Routing Table:"@] + Seq::new(rt.table.len(), |k: int| route_line(rt.table[k]))
}

/// The line of the router's `ipconfig` for port `k`.
pub open spec fn port_config_line(rt: RouterView, k: int) -> Seq<char> {
    "Port "@ + int_text(k) + ": IP: "@ + ipv4_text(rt.ports[k].interface.ip_address) + ", Subnet: "@ + ipv4_text(
        rt.ports[k].interface.subnet_mask,
    ) + ", Enabled: "@ + bool_text(rt.ports[k].enabled) + ", RIP: "@ + bool_text(rt.ports[k].rip_enabled)
}

/// What the router's `ipconfig` prints: a title and one line per port, in order.
pub open spec fn router_config(rt: RouterView) -> Seq<Seq<char>> {
    seq!["IP Configuration:"@] + Seq::new(8, |k: int| port_config_line(rt, k))
}

/// Running a command on a router at `now`: `help` and `clear` print; `enable` enables the port
/// with the address and mask and says so; `rip` starts RIP on an enabled port and says so, and
/// refuses a disabled port; `routes` and `ipconfig` print the table and the ports; a word that
/// names no command prints an error; the commands of a desktop change nothing.
pub open spec fn router_executed(rt: RouterView, t: TerminalView, ports: Seq<EthernetPortView>, cmd: CommandView, now: u128)
    -> (RouterView, TerminalView, Seq<EthernetPortView>) {
    match cmd {
        CommandView::Help => (rt, t.print(router_help()), ports),
        CommandView::Clear => (rt, t.print(clear_lines()), ports),
        CommandView::Enable(p, a, m) => (
            interface_enabled(rt, p, a, m),
            t.print(seq!["Port "@ + int_text(p as int) + " enabled with IP "@ + ipv4_text(a) + " and subnet mask "@ + ipv4_text(m)]),
            ports,
        ),
        CommandView::Rip(p) => if rt.ports[p as int].enabled {
            let r = rip_started(rt, ports, p, now);
            (r.0, t.print(seq!["RIP enabled on port "@ + int_text(p as int)]), r.1)
        } else {
            (rt, t.print(seq!["Error: Port "@ + int_text(p as int) + " is disabled."@]), ports)
        },
        CommandView::Routes => (rt, t.print(routes_lines(rt)), ports),
        CommandView::IpConfig => (rt, t.print(router_config(rt)), ports),
        CommandView::Invalid(w) => (rt, t.print(seq![invalid_text(w)]), ports),
        _ => (rt, t, ports),
    }
}

/// Running a command on a switch: `help` and `clear` print, a word that names no command prints
/// an error, and the commands of other devices change nothing.
pub open spec fn switch_executed(t: TerminalView, cmd: CommandView) -> TerminalView {
    match cmd {
        CommandView::Help => t.print(switch_help()),
        CommandView::Clear => t.print(clear_lines()),
        CommandView::Invalid(w) => t.print(seq![invalid_text(w)]),
        _ => t,
    }
}

/// The port of a router command is a port of the router.
pub open spec fn router_ports_ok(cmd: CommandView) -> bool {
    match cmd {
        CommandView::Enable(p, _, _) => p < 8,
        CommandView::Rip(p) => p < 8,
        _ => true,
    }
}

fn bool_string(b: bool) -> (r: &'static str)
    ensures
        r@ == bool_text(b),
{
    if b {
        "true"
    } else {
        "false"
    }
}

fn small_int_string(n: usize) -> (r: String)
    requires
        n < 0x8000_0000,
    ensures
        r@ == int_text(n as int),
{
    decimal_text(n as i32)
}

impl Router {
    /// Runs a command at `now`; see `router_executed`.
    pub fn execute(&mut self, term: &mut TerminalState, sim: &mut CableSimulator, cmd: Command, now: u128)
        requires
            old(self)@.wf(old(sim)@.ports.len()),
            old(sim).wf(),
            router_ports_ok(cmd@),
            now + 5 * NANOS_PER_SEC <= u128::MAX,
        ensures
            final(self)@.same_ports(old(self)@),
            final(self)@.wf(old(sim)@.ports.len()),
            final(sim).wf(),
            final(sim)@.simulated == old(sim)@.simulated,
            final(sim)@.ports.len() == old(sim)@.ports.len(),
            (final(self)@, final(term)@, final(sim)@.ports) == router_executed(old(self)@, old(term)@, old(sim)@.ports, cmd@, now),
    {
        match cmd {
            Command::Help => {
                let ghost t0 = term@;
                term.print_str("help: Prints this help message");
                term.print_str("clear: Clear the terminal screen");
                term.print_str("enable: Enable a port. Usage: enable <port> <ip> <subnet>");
                term.print_str("rip: Enable or disable RIP. Usage: rip <port>");
                term.print_str("routes: Print the routing table");
                term.print_str("ipconfig: Print the current IP configuration of the router");
                assert(term@.out =~= t0.out + router_help());
            },
            Command::Clear => term.print_clear(),
            Command::Enable(p, a, m) => {
                self.enable_interface(p, a, m);
                let line = String::from_str("Port ").concat(small_int_string(p).as_str()).concat(" enabled with IP ").concat(
                    ipv4_string(&a).as_str(),
                ).concat(" and subnet mask ").concat(ipv4_string(&m).as_str());
                term.print(line);
            },
            Command::Rip(p) => {
                if self.is_port_up(p) {
                    self.enable_rip(sim, p, now);
                    term.print(String::from_str("RIP enabled on port ").concat(small_int_string(p).as_str()));
                } else {
                    term.print(String::from_str("Error: Port ").concat(small_int_string(p).as_str()).concat(" is disabled."));
                }
            },
            Command::Routes => {
                let ghost t0 = term@;
                let ghost rt = self@;
                term.print_str("Routing Table:");
                let n = self.routes_len();
                let mut i: usize = 0;
                while i < n
                    invariant
                        0 <= i <= n,
                        n == rt.table.len(),
                        self@ == rt,
                        rt.wf(old(sim)@.ports.len()),
                        term@ == t0.print(seq!["Routing Table:"@] + Seq::new(i as nat, |k: int| route_line(rt.table[k]))),
                    decreases n - i,
                {
                    let (net, route) = self.route_entry(i);
                    assert(rt.table[i as int].1.port < 8);
                    let line = ipv4_string(&net).concat(" -> ").concat(ipv4_string(&route.ip_address).as_str()).concat(
                        " via port ",
                    ).concat(small_int_string(route.port).as_str());
                    term.print(line);
                    i = i + 1;
                    assert(term@.out =~= t0.out + (seq!["Routing Table:"@] + Seq::new(i as nat, |k: int| route_line(rt.table[k]))));
                }
                assert(term@.out =~= t0.out + routes_lines(rt));
            },
            Command::IpConfig => {
                let ghost t0 = term@;
                let ghost rt = self@;
                term.print_str("IP Configuration:");
                let mut k: usize = 0;
                while k < 8
                    invariant
                        0 <= k <= 8,
                        self@ == rt,
                        rt.ports.len() == 8,
                        term@ == t0.print(seq!["IP Configuration:"@] + Seq::new(k as nat, |j: int| port_config_line(rt, j))),
                    decreases 8 - k,
                {
                    let (ip, mask, enabled, rip) = self.interface_config(k);
                    let line = String::from_str("Port ").concat(small_int_string(k).as_str()).concat(": IP: ").concat(
                        ipv4_string(&ip).as_str(),
                    ).concat(", Subnet: ").concat(ipv4_string(&mask).as_str()).concat(", Enabled: ").concat(bool_string(enabled)).concat(
                        ", RIP: ",
                    ).concat(bool_string(rip));
                    term.print(line);
                    k = k + 1;
                    assert(term@.out =~= t0.out + (seq!["IP Configuration:"@] + Seq::new(k as nat, |j: int| port_config_line(rt, j))));
                }
                assert(term@.out =~= t0.out + router_config(rt));
            },
            Command::Invalid(w) => {
                let line = String::from_str("Error: '").concat(w.as_str()).concat("' is not a valid command");
                term.print(line);
            },
            _ => {},
        }
    }
}

impl Switch {
    /// Runs a command; see `switch_executed`.
    pub fn execute(&self, term: &mut TerminalState, cmd: Command)
        ensures
            final(term)@ == switch_executed(old(term)@, cmd@),
    {
        match cmd {
            Command::Help => {
                let ghost t0 = term@;
                term.print_str("help: Prints this help message");
                term.print_str("clear: Clear the terminal screen");
                assert(term@.out =~= t0.out + switch_help());
            },
            Command::Clear => term.print_clear(),
            Command::Invalid(w) => {
                let line = String::from_str("Error: '").concat(w.as_str()).concat("' is not a valid command");
                term.print(line);
            },
            _ => {},
        }
    }
}

// ----- Command lines -----

/// A command line typed on a desktop's terminal: read (see `parsed_command`), then run, or its
/// usage or error printed.
pub open spec fn desktop_input(v: Ipv4InterfaceView, t: TerminalView, ports: Seq<EthernetPortView>, words: Seq<Seq<char>>, now: u128)
    -> (Ipv4InterfaceView, TerminalView, Seq<EthernetPortView>) {
    match parsed_command(DeviceKind::Desktop, words) {
        Ok(c) => desktop_executed(v, t, ports, c, now),
        Err(e) => (v, t.print(seq![e]), ports),
    }
}

/// A command line typed on a router's terminal; see `desktop_input`.
pub open spec fn router_input(rt: RouterView, t: TerminalView, ports: Seq<EthernetPortView>, words: Seq<Seq<char>>, now: u128)
    -> (RouterView, TerminalView, Seq<EthernetPortView>) {
    match parsed_command(DeviceKind::Router, words) {
        Ok(c) => router_executed(rt, t, ports, c, now),
        Err(e) => (rt, t.print(seq![e]), ports),
    }
}

/// A command line typed on a switch's terminal; see `desktop_input`.
pub open spec fn switch_input(t: TerminalView, words: Seq<Seq<char>>) -> TerminalView {
    match parsed_command(DeviceKind::Switch, words) {
        Ok(c) => switch_executed(t, c),
        Err(e) => t.print(seq![e]),
    }
}

impl Desktop {
    /// Reads and runs a command line, given as its words, at `now`; see `desktop_input`.
    pub fn input(&mut self, term: &mut TerminalState, sim: &mut CableSimulator, words: Vec<String>, now: u128)
        requires
            old(sim).wf(),
            old(self).interface.valid_in(old(sim)@.ports),
            now + 3 * NANOS_PER_SEC <= u128::MAX,
        ensures
            final(sim).wf(),
            final(sim)@.simulated == old(sim)@.simulated,
            final(sim)@.ports.len() == old(sim)@.ports.len(),
            final(self).interface@.ethernet == old(self).interface@.ethernet,
            (final(self).interface@, final(term)@, final(sim)@.ports) == desktop_input(
                old(self).interface@,
                old(term)@,
                old(sim)@.ports,
                words@.map_values(|w: String| w@),
                now,
            ),
    {
        match parse_command(DeviceKind::Desktop, words) {
            Ok(c) => self.execute(term, sim, c, now),
            Err(e) => term.print(e),
        }
    }
}

impl Router {
    /// Reads and runs a command line, given as its words, at `now`; see `router_input`.
    pub fn input(&mut self, term: &mut TerminalState, sim: &mut CableSimulator, words: Vec<String>, now: u128)
        requires
            old(self)@.wf(old(sim)@.ports.len()),
            old(sim).wf(),
            now + 5 * NANOS_PER_SEC <= u128::MAX,
        ensures
            final(self)@.same_ports(old(self)@),
            final(self)@.wf(old(sim)@.ports.len()),
            final(sim).wf(),
            final(sim)@.simulated == old(sim)@.simulated,
            final(sim)@.ports.len() == old(sim)@.ports.len(),
            (final(self)@, final(term)@, final(sim)@.ports) == router_input(
                old(self)@,
                old(term)@,
                old(sim)@.ports,
                words@.map_values(|w: String| w@),
                now,
            ),
    {
        match parse_command(DeviceKind::Router, words) {
            Ok(c) => self.execute(term, sim, c, now),
            Err(e) => term.print(e),
        }
    }
}

impl Switch {
    /// Reads and runs a command line, given as its words; see `switch_input`.
    pub fn input(&self, term: &mut TerminalState, words: Vec<String>)
        ensures
            final(term)@ == switch_input(old(term)@, words@.map_values(|w: String| w@)),
    {
        match parse_command(DeviceKind::Switch, words) {
            Ok(c) => self.execute(term, c),
            Err(e) => term.print(e),
        }
    }
}

} // verus!
