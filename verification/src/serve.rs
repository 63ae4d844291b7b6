use crate::text::chars_of;
use vstd::prelude::*;
use vstd::string::*;

verus! {

/// The host that the site is served on where none is given.
pub const DEFAULT_HOST: &'static str = "localhost";

/// The port that the site is served on where none is given.
pub const DEFAULT_PORT: &'static str = "8000";

/// Whether `c` is one of the ten decimal digits.
pub open spec fn is_digit(c: char) -> bool {
    '0' <= c <= '9'
}

/// The number that a decimal digit stands for.
pub open spec fn digit_value(c: char) -> nat {
    (c as nat - '0' as nat) as nat
}

/// Whether `text` is made of decimal digits alone.
pub open spec fn all_digits(text: Seq<char>) -> bool {
    forall|i: int| 0 <= i < text.len() ==> is_digit(#[trigger] text[i])
}

/// The number that a row of decimal digits stands for.
pub open spec fn decimal(digits: Seq<char>) -> nat
    decreases digits.len(),
{
    if digits.len() == 0 {
        0
    } else {
        10 * decimal(digits.drop_last()) + digit_value(digits.last())
    }
}

/// The digits of a port as it is written: a plus sign may stand before them.
pub open spec fn port_digits(text: Seq<char>) -> Seq<char> {
    if text.len() > 0 && text[0] == '+' {
        text.skip(1)
    } else {
        text
    }
}

/// The port that `text` stands for: at least one decimal digit and nothing
/// else, but for a plus sign that may stand first, and a number that 32 bits
/// hold.
pub open spec fn port_number(text: Seq<char>) -> Option<u32> {
    let digits = port_digits(text);
    if digits.len() > 0 && all_digits(digits) && decimal(digits) <= u32::MAX {
        Some(decimal(digits) as u32)
    } else {
        None
    }
}

/// A port that is no number, or none that 32 bits hold.
#[derive(Clone, Copy, Debug, PartialEq, Eq, Structural)]
pub enum PortParseError {
    /// The text is not a decimal number, or the number is too large.
    NotAPort,
}

/// A row of digits stands for no less than any of its beginnings.
proof fn lemma_decimal_grows(digits: Seq<char>, k: int)
    requires
        0 <= k <= digits.len(),
    ensures
        decimal(digits.take(k)) <= decimal(digits),
    decreases digits.len(),
{
    if k == digits.len() {
        assert(digits.take(k) =~= digits);
    } else {
        assert(digits.drop_last().take(k) =~= digits.take(k));
        lemma_decimal_grows(digits.drop_last(), k);
    }
}

/// Reads a port as it is written.
pub fn parse_port(text: &str) -> (res: Result<u32, PortParseError>)
    ensures
        match res {
            Ok(port) => port_number(text@) == Some(port),
            Err(_) => port_number(text@) is None,
        },
{
    let chars = chars_of(text);
    let start: usize = if chars.len() > 0 && chars[0] == '+' {
        1
    } else {
        0
    };
    let ghost digits = port_digits(text@);
    assert(digits =~= chars@.skip(start as int));
    if start == chars.len() {
        return Err(PortParseError::NotAPort);
    }
    let mut number: u64 = 0;
    let mut at: usize = start;
    assert(digits.take(0) =~= Seq::<char>::empty());
    while at < chars.len()
        invariant
            start <= at <= chars.len(),
            digits == chars@.skip(start as int),
            digits == port_digits(text@),
            all_digits(digits.take(at - start)),
            number == decimal(digits.take(at - start)),
            number <= u32::MAX,
        decreases chars.len() - at,
    {
        let c = chars[at];
        let ghost read = digits.take(at - start + 1);
        proof {
            assert(read.drop_last() =~= digits.take(at - start));
            assert(read.last() == c);
        }
        if c < '0' || c > '9' {
            assert(!is_digit(digits[at - start]));
            return Err(PortParseError::NotAPort);
        }
        let digit: u64 = (c as u32 - '0' as u32) as u64;
        number = 10 * number + digit;
        assert(number == decimal(read));
        if number > u32::MAX as u64 {
            proof {
                lemma_decimal_grows(digits, at - start + 1);
            }
            return Err(PortParseError::NotAPort);
        }
        at += 1;
        assert forall|i: int| 0 <= i < read.len() implies is_digit(#[trigger] read[i]) by {
            if i < read.len() - 1 {
                assert(read[i] == digits.take(at - start - 1)[i]);
            }
        }
    }
    assert(digits.take(digits.len() as int) =~= digits);
    Ok(number as u32)
}

/// Where a site is served, as plain values.
pub struct ServeTargetView {
    pub host: Seq<char>,
    pub port: u32,
    pub root: Seq<char>,
}

/// Where a site is served: the host and the port to listen on, and the
/// directory that is served.
#[derive(Clone, Debug, PartialEq, Eq)]
pub struct ServeTarget {
    pub host: String,
    pub port: u32,
    pub root: String,
}

impl View for ServeTarget {
    type V = ServeTargetView;

    open spec fn view(&self) -> ServeTargetView {
        ServeTargetView { host: self.host@, port: self.port, root: self.root@ }
    }
}

/// The host to listen on: the one that is given, or else the default.
pub open spec fn host_or_default(host: Option<Seq<char>>) -> Seq<char> {
    match host {
        Some(host) => host,
        None => DEFAULT_HOST@,
    }
}

/// The port to listen on, as it is written: the one that is given, or else the
/// default.
pub open spec fn port_or_default(port: Option<Seq<char>>) -> Seq<char> {
    match port {
        Some(port) => port,
        None => DEFAULT_PORT@,
    }
}

/// Where the directory `root` is served for a host and a port as they were
/// given, if the port is one.
pub open spec fn target_of(
    host: Option<Seq<char>>,
    port: Option<Seq<char>>,
    root: Seq<char>,
) -> Option<ServeTargetView> {
    match port_number(port_or_default(port)) {
        Some(number) => Some(
            ServeTargetView { host: host_or_default(host), port: number, root },
        ),
        None => None,
    }
}

/// Decides where the directory `root` is served. The port is read here, and
/// nothing is served where it is no port.
pub fn serve_target(host: Option<&str>, port: Option<&str>, root: &str) -> (res: Result<
    ServeTarget,
    PortParseError,
>)
    ensures
        match res {
            Ok(target) => target_of(host.deep_view(), port.deep_view(), root@) == Some(target@),
            Err(_) => target_of(host.deep_view(), port.deep_view(), root@) is None,
        },
{
    let host = match host {
        Some(host) => host,
        None => DEFAULT_HOST,
    };
    let port = match port {
        Some(port) => port,
        None => DEFAULT_PORT,
    };
    match parse_port(port) {
        Ok(port) => Ok(
            ServeTarget { host: String::from_str(host), port, root: String::from_str(root) },
        ),
        Err(e) => Err(e),
    }
}

/// The default port is a port: 8000.
pub proof fn lemma_default_port()
    ensures
        port_number(DEFAULT_PORT@) == Some(8000u32),
{
    reveal_strlit("8000");
    reveal_with_fuel(decimal, 5);
    let digits = DEFAULT_PORT@;
    assert(port_digits(digits) == digits);
    assert(digits.drop_last() =~= seq!['8', '0', '0']);
    assert(digits.drop_last().drop_last() =~= seq!['8', '0']);
    assert(digits.drop_last().drop_last().drop_last() =~= seq!['8']);
    assert(digits.drop_last().drop_last().drop_last().drop_last() =~= Seq::<char>::empty());
}

} // verus!
