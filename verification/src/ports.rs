//! Port lists: the grammar of a comma-separated list of ports and port ranges,
//! and the parser that reads one into a port set.

use crate::collections::{insert_port, new_port_set, port_members, PortSet};
use crate::text::chars_of;
use vstd::prelude::*;
use vstd::string::StrSliceExecFns;

verus! {

/// Why a port list was refused, as contracts speak of it.
pub enum ParseFailure {
    /// The text, trimmed, is not a decimal number that fits in 16 bits.
    InvalidNumber(Seq<char>),
    /// A port, or a bound of a range, is 0.
    ZeroPort,
    /// The lower bound of a range is above its upper bound.
    DecreasingRange,
}

/// Why a port list was refused.
#[derive(Debug, PartialEq, Eq)]
pub enum ParseError {
    /// The token is not a decimal number that fits in 16 bits.
    InvalidNumber { token: String },
    /// A port, or a bound of a range, is 0.
    ZeroPort,
    /// The lower bound of a range is above its upper bound.
    DecreasingRange,
}

impl View for ParseError {
    type V = ParseFailure;

    open spec fn view(&self) -> ParseFailure {
        match self {
            ParseError::InvalidNumber { token } => ParseFailure::InvalidNumber(token@),
            ParseError::ZeroPort => ParseFailure::ZeroPort,
            ParseError::DecreasingRange => ParseFailure::DecreasingRange,
        }
    }
}

/// The reason that goes with a failure, in words.
pub open spec fn reason_of(failure: ParseFailure) -> Seq<char> {
    match failure {
        ParseFailure::InvalidNumber(_) => "parsing port"@,
        ParseFailure::ZeroPort => "port must not be 0"@,
        ParseFailure::DecreasingRange => "Port range must be increasing"@,
    }
}

impl ParseError {
    /// The reason for the refusal, in words.
    pub fn reason(&self) -> (text: &'static str)
        ensures
            text@ == reason_of(self@),
    {
        match self {
            ParseError::InvalidNumber { .. } => "parsing port",
            ParseError::ZeroPort => "port must not be 0",
            ParseError::DecreasingRange => "Port range must be increasing",
        }
    }
}

/// Whether a character is white space (the Unicode property `White_Space`).
pub open spec fn is_space(c: char) -> bool {
    ||| '\u{0009}' <= c <= '\u{000D}'
    ||| c == '\u{0020}'
    ||| c == '\u{0085}'
    ||| c == '\u{00A0}'
    ||| c == '\u{1680}'
    ||| '\u{2000}' <= c <= '\u{200A}'
    ||| c == '\u{2028}'
    ||| c == '\u{2029}'
    ||| c == '\u{202F}'
    ||| c == '\u{205F}'
    ||| c == '\u{3000}'
}

/// The text without its leading white space.
pub open spec fn trim_start(s: Seq<char>) -> Seq<char>
    decreases s.len(),
{
    if s.len() > 0 && is_space(s[0]) {
        trim_start(s.skip(1))
    } else {
        s
    }
}

/// The text without its trailing white space.
pub open spec fn trim_end(s: Seq<char>) -> Seq<char>
    decreases s.len(),
{
    if s.len() > 0 && is_space(s.last()) {
        trim_end(s.drop_last())
    } else {
        s
    }
}

/// The text without the white space around it.
pub open spec fn trim(s: Seq<char>) -> Seq<char> {
    trim_end(trim_start(s))
}

/// Where `c` first occurs in the text; the length of the text if it does not.
pub open spec fn first_index_of(s: Seq<char>, c: char) -> int
    decreases s.len(),
{
    if s.len() == 0 || s[0] == c {
        0
    } else {
        1 + first_index_of(s.skip(1), c)
    }
}

/// Whether a character is one of the ten decimal digits.
pub open spec fn is_digit(c: char) -> bool {
    '0' <= c <= '9'
}

/// What a decimal digit counts for; 0 for any other character.
pub open spec fn digit_value(c: char) -> nat {
    if is_digit(c) {
        (c as u32 - '0' as u32) as nat
    } else {
        0
    }
}

/// The number that a run of decimal digits writes.
pub open spec fn decimal_value(s: Seq<char>) -> nat
    decreases s.len(),
{
    if s.len() == 0 {
        0
    } else {
        decimal_value(s.drop_last()) * 10 + digit_value(s.last())
    }
}

/// Whether every character of the text is a decimal digit.
pub open spec fn all_digits(s: Seq<char>) -> bool {
    forall|i: int| 0 <= i < s.len() ==> is_digit(#[trigger] s[i])
}

/// The 16-bit number that the text writes: an optional `+`, then one or more
/// decimal digits whose value is at most 65535. `None` for any other text.
pub open spec fn port_number(s: Seq<char>) -> Option<u16> {
    let digits = if s.len() > 0 && s[0] == '+' {
        s.skip(1)
    } else {
        s
    };
    if digits.len() > 0 && all_digits(digits) && decimal_value(digits) <= 65535 {
        Some(decimal_value(digits) as u16)
    } else {
        None
    }
}

/// The ports from `floor` to `ceil`, both included.
pub open spec fn port_range(floor: u16, ceil: u16) -> Set<u16> {
    Set::new(|p: u16| floor <= p <= ceil)
}

/// What one token of a port list stands for.
///
/// A token without `-` is a single port, or nothing when it is blank. A token
/// with `-` is a range, split at the first `-`. Each number is read after
/// trimming. Numbers are checked first, left to right, then for 0, then the
/// order of the bounds.
pub open spec fn token_ports(token: Seq<char>) -> Result<Set<u16>, ParseFailure> {
    let dash = first_index_of(token, '-');
    if dash >= token.len() {
        let text = trim(token);
        if text.len() == 0 {
            Ok(Set::empty())
        } else {
            match port_number(text) {
                None => Err(ParseFailure::InvalidNumber(text)),
                Some(port) => if port == 0 {
                    Err(ParseFailure::ZeroPort)
                } else {
                    Ok(port_range(port, port))
                },
            }
        }
    } else {
        let low = trim(token.take(dash));
        let high = trim(token.skip(dash + 1));
        match port_number(low) {
            None => Err(ParseFailure::InvalidNumber(low)),
            Some(floor) => match port_number(high) {
                None => Err(ParseFailure::InvalidNumber(high)),
                Some(ceil) => if floor == 0 || ceil == 0 {
                    Err(ParseFailure::ZeroPort)
                } else if floor > ceil {
                    Err(ParseFailure::DecreasingRange)
                } else {
                    Ok(port_range(floor, ceil))
                },
            },
        }
    }
}

/// The ports already gathered, joined with what the rest of the list gives.
pub open spec fn joined(gathered: Set<u16>, rest: Result<Set<u16>, ParseFailure>) -> Result<
    Set<u16>,
    ParseFailure,
> {
    match rest {
        Ok(more) => Ok(gathered.union(more)),
        Err(failure) => Err(failure),
    }
}

/// What a port list stands for: the union of what its tokens stand for, the
/// tokens being what lies between the commas; or the failure of the first
/// token that is refused.
pub open spec fn portset_of(s: Seq<char>) -> Result<Set<u16>, ParseFailure>
    decreases s.len(),
{
    let comma = first_index_of(s, ',');
    if comma < 0 || comma >= s.len() {
        token_ports(s)
    } else {
        match token_ports(s.take(comma)) {
            Ok(ports) => joined(ports, portset_of(s.skip(comma + 1))),
            Err(failure) => Err(failure),
        }
    }
}

/// A text that has no `c` before `at`, and `c` at `at` unless it ends there,
/// has its first `c` at `at`.
pub proof fn lemma_first_index_of(s: Seq<char>, c: char, at: int)
    requires
        0 <= at <= s.len(),
        forall|k: int| 0 <= k < at ==> s[k] != c,
        at == s.len() || s[at] == c,
    ensures
        first_index_of(s, c) == at,
    decreases at,
{
    if at > 0 {
        lemma_first_index_of(s.skip(1), c, at - 1);
    }
}

/// The digits read so far never count for more than the whole run.
pub proof fn lemma_decimal_value_grows(s: Seq<char>, k: int)
    requires
        0 <= k <= s.len(),
    ensures
        decimal_value(s.take(k)) <= decimal_value(s),
    decreases s.len() - k,
{
    if k < s.len() {
        lemma_decimal_value_grows(s, k + 1);
        assert(s.take(k + 1).drop_last() =~= s.take(k));
    } else {
        assert(s.take(k) =~= s);
    }
}

/// Joining nothing to a result leaves it as it is.
pub proof fn lemma_joined_empty(rest: Result<Set<u16>, ParseFailure>)
    ensures
        joined(Set::empty(), rest) == rest,
{
    if let Ok(more) = rest {
        assert(Set::<u16>::empty().union(more) =~= more);
    }
}

/// Joining two sets to a result one after the other is joining their union.
pub proof fn lemma_joined_twice(first: Set<u16>, second: Set<u16>, rest: Result<Set<u16>, ParseFailure>)
    ensures
        joined(first, joined(second, rest)) == joined(first.union(second), rest),
{
    if let Ok(more) = rest {
        assert(first.union(second.union(more)) =~= first.union(second).union(more));
    }
}

/// Reading the same list twice gives the same ports: the ports of a reading
/// are settled by the text alone.
pub proof fn lemma_parse_repeatable(s: Seq<char>, first: PortSet, second: PortSet)
    requires
        portset_of(s) == Ok::<_, ParseFailure>(port_members(first)),
        portset_of(s) == Ok::<_, ParseFailure>(port_members(second)),
    ensures
        port_members(first) == port_members(second),
{
}

/// No token stands for port 0.
pub proof fn lemma_token_ports_nonzero(token: Seq<char>)
    ensures
        token_ports(token) matches Ok(ports) ==> !ports.contains(0),
{
}

/// No port list stands for a set that holds port 0.
pub proof fn lemma_portset_nonzero(s: Seq<char>)
    ensures
        portset_of(s) matches Ok(ports) ==> !ports.contains(0),
    decreases s.len(),
{
    let comma = first_index_of(s, ',');
    if comma < 0 || comma >= s.len() {
        lemma_token_ports_nonzero(s);
    } else {
        lemma_token_ports_nonzero(s.take(comma));
        lemma_portset_nonzero(s.skip(comma + 1));
    }
}

/// The first index of `c` lies within the text or at its end, no `c` stands
/// before it, and `c` stands at it unless the text ends there.
pub proof fn lemma_first_index_of_is_first(s: Seq<char>, c: char)
    ensures
        0 <= first_index_of(s, c) <= s.len(),
        forall|k: int| 0 <= k < first_index_of(s, c) ==> s[k] != c,
        first_index_of(s, c) < s.len() ==> s[first_index_of(s, c)] == c,
    decreases s.len(),
{
    if !(s.len() == 0 || s[0] == c) {
        let rest = s.skip(1);
        lemma_first_index_of_is_first(rest, c);
        assert forall|k: int| 0 <= k < first_index_of(s, c) implies s[k] != c by {
            if k > 0 {
                assert(rest[k - 1] == s[k]);
            }
        }
    }
}

/// The two lists written one after the other, with a comma between them.
pub open spec fn chained(first: Seq<char>, second: Seq<char>) -> Seq<char> {
    first + seq![','] + second
}

/// Two lists chained stand for the union of what each stands for; where one
/// is refused, the chain is refused with the failure of the first that is.
pub proof fn lemma_portset_of_chained(first: Seq<char>, second: Seq<char>)
    ensures
        portset_of(chained(first, second)) == match portset_of(first) {
            Ok(ports) => joined(ports, portset_of(second)),
            Err(failure) => Err(failure),
        },
    decreases first.len(),
{
    let whole = chained(first, second);
    let comma = first_index_of(first, ',');
    lemma_first_index_of_is_first(first, ',');
    if comma >= first.len() {
        lemma_first_index_of(whole, ',', first.len() as int);
        assert(whole.take(first.len() as int) =~= first);
        assert(whole.skip(first.len() as int + 1) =~= second);
    } else {
        lemma_first_index_of(whole, ',', comma);
        let rest = first.skip(comma + 1);
        assert(whole.take(comma) =~= first.take(comma));
        assert(whole.skip(comma + 1) =~= chained(rest, second));
        lemma_portset_of_chained(rest, second);
        if let Ok(ports) = token_ports(first.take(comma)) {
            if let Ok(more) = portset_of(rest) {
                lemma_joined_twice(ports, more, portset_of(second));
            }
        }
    }
}

/// The order in which two lists are chained does not matter to the ports:
/// either chain is accepted exactly when the other is, and then both stand
/// for the same set.
pub proof fn lemma_chained_either_way(first: Seq<char>, second: Seq<char>)
    ensures
        portset_of(chained(first, second)) is Ok <==> portset_of(chained(second, first)) is Ok,
        portset_of(chained(first, second)) is Ok ==> portset_of(chained(first, second))
            == portset_of(chained(second, first)),
{
    lemma_portset_of_chained(first, second);
    lemma_portset_of_chained(second, first);
    if let Ok(ports) = portset_of(first) {
        if let Ok(more) = portset_of(second) {
            assert(ports.union(more) =~= more.union(ports));
        }
    }
}

/// Listing the same ports twice adds nothing.
pub proof fn lemma_chained_with_itself(list: Seq<char>)
    ensures
        portset_of(chained(list, list)) == portset_of(list),
{
    lemma_portset_of_chained(list, list);
    if let Ok(ports) = portset_of(list) {
        assert(ports.union(ports) =~= ports);
    }
}

/// Whether a character is white space.
pub fn is_whitespace(c: char) -> (r: bool)
    ensures
        r == is_space(c),
{
    ('\u{0009}' <= c && c <= '\u{000D}') || c == '\u{0020}' || c == '\u{0085}' || c == '\u{00A0}'
        || c == '\u{1680}' || ('\u{2000}' <= c && c <= '\u{200A}') || c == '\u{2028}' || c
        == '\u{2029}' || c == '\u{202F}' || c == '\u{205F}' || c == '\u{3000}'
}

/// The position of the first `c` in `s[from..to]`, or `to` where there is none.
fn find_char(s: &Vec<char>, from: usize, to: usize, c: char) -> (at: usize)
    requires
        from <= to <= s@.len(),
    ensures
        from <= at <= to,
        at - from == first_index_of(s@.subrange(from as int, to as int), c),
{
    let mut at: usize = from;
    while at < to && s[at] != c
        invariant
            from <= at <= to <= s@.len(),
            forall|k: int| from <= k < at ==> s@[k] != c,
        decreases to - at,
    {
        at += 1;
    }
    proof {
        lemma_first_index_of(s@.subrange(from as int, to as int), c, at - from);
    }
    at
}

/// The bounds of `s[from..to]` without the white space around it.
fn trim_bounds(s: &Vec<char>, from: usize, to: usize) -> (r: (usize, usize))
    requires
        from <= to <= s@.len(),
    ensures
        from <= r.0 <= r.1 <= to,
        s@.subrange(r.0 as int, r.1 as int) == trim(s@.subrange(from as int, to as int)),
{
    let mut a: usize = from;
    while a < to && is_whitespace(s[a])
        invariant
            from <= a <= to <= s@.len(),
            trim_start(s@.subrange(from as int, to as int)) == trim_start(
                s@.subrange(a as int, to as int),
            ),
        decreases to - a,
    {
        assert(s@.subrange(a as int, to as int).skip(1) =~= s@.subrange(a + 1, to as int));
        a += 1;
    }
    let mut b: usize = to;
    while a < b && is_whitespace(s[b - 1])
        invariant
            a <= b <= to <= s@.len(),
            trim_end(s@.subrange(a as int, to as int)) == trim_end(
                s@.subrange(a as int, b as int),
            ),
        decreases b - a,
    {
        assert(s@.subrange(a as int, b as int).drop_last() =~= s@.subrange(a as int, b - 1));
        b -= 1;
    }
    (a, b)
}

/// Reads `s[from..to]` as a 16-bit number.
fn parse_port(s: &Vec<char>, from: usize, to: usize) -> (r: Option<u16>)
    requires
        from <= to <= s@.len(),
    ensures
        r == port_number(s@.subrange(from as int, to as int)),
{
    let ghost text = s@.subrange(from as int, to as int);
    let start: usize = if from < to && s[from] == '+' {
        from + 1
    } else {
        from
    };
    let ghost digits = s@.subrange(start as int, to as int);
    assert(digits =~= if text.len() > 0 && text[0] == '+' {
        text.skip(1)
    } else {
        text
    });
    if start == to {
        return None;
    }
    let mut value: u32 = 0;
    let mut i: usize = start;
    while i < to
        invariant
            start <= i <= to <= s@.len(),
            digits == s@.subrange(start as int, to as int),
            digits == if text.len() > 0 && text[0] == '+' {
                text.skip(1)
            } else {
                text
            },
            text == s@.subrange(from as int, to as int),
            all_digits(digits.take(i - start)),
            value == decimal_value(digits.take(i - start)),
            value <= 65535,
        decreases to - i,
    {
        let c = s[i];
        assert(digits[i - start] == c);
        if !('0' <= c && c <= '9') {
            return None;
        }
        let digit: u32 = c as u32 - '0' as u32;
        proof {
            assert(digits.take(i - start + 1).drop_last() =~= digits.take(i - start));
            lemma_decimal_value_grows(digits, i - start + 1);
        }
        if value * 10 + digit > 65535 {
            return None;
        }
        value = value * 10 + digit;
        i += 1;
    }
    assert(digits.take(i - start) =~= digits);
    Some(value as u16)
}

/// Adds every port from `floor` to `ceil` to the set.
fn insert_range(ports: &mut PortSet, floor: u16, ceil: u16)
    requires
        floor <= ceil,
    ensures
        port_members(*final(ports)) == port_members(*old(ports)).union(port_range(floor, ceil)),
{
    let mut next: u32 = floor as u32;
    while next <= ceil as u32
        invariant
            floor <= next <= ceil + 1,
            port_members(*ports) == port_members(*old(ports)).union(
                Set::new(|p: u16| floor <= p < next),
            ),
        decreases ceil + 1 - next,
    {
        insert_port(ports, next as u16);
        assert(port_members(*ports) =~= port_members(*old(ports)).union(
            Set::new(|p: u16| floor <= p < next + 1),
        ));
        next += 1;
    }
    assert(Set::new(|p: u16| floor <= p < next) =~= port_range(floor, ceil));
}

/// The error for a text that is no port number.
fn invalid_number(s: &str, from: usize, to: usize) -> (e: ParseError)
    requires
        from <= to <= s@.len(),
    ensures
        e@ == ParseFailure::InvalidNumber(s@.subrange(from as int, to as int)),
{
    ParseError::InvalidNumber { token: s.substring_char(from, to).to_owned() }
}

/// Reads the token `s[from..to]` of `text` and adds its ports to the set. After an
/// error the set may hold some of them.
fn add_token(ports: &mut PortSet, text: &str, s: &Vec<char>, from: usize, to: usize) -> (r: Result<
    (),
    ParseError,
>)
    requires
        text@ == s@,
        from <= to <= s@.len(),
    ensures
        match r {
            Ok(_) => joined(
                port_members(*old(ports)),
                token_ports(s@.subrange(from as int, to as int)),
            ) == Ok::<_, ParseFailure>(port_members(*final(ports))),
            Err(e) => token_ports(s@.subrange(from as int, to as int)) == Err::<Set<u16>, _>(e@),
        },
{
    let ghost token = s@.subrange(from as int, to as int);
    let dash = find_char(s, from, to, '-');
    if dash == to {
        let (a, b) = trim_bounds(s, from, to);
        if a == b {
            assert(port_members(*ports).union(Set::empty()) =~= port_members(*ports));
            return Ok(());
        }
        match parse_port(s, a, b) {
            None => Err(invalid_number(text, a, b)),
            Some(port) => {
                if port == 0 {
                    return Err(ParseError::ZeroPort);
                }
                insert_range(ports, port, port);
                Ok(())
            },
        }
    } else {
        assert(token.take(dash - from) =~= s@.subrange(from as int, dash as int));
        assert(token.skip(dash - from + 1) =~= s@.subrange(dash + 1, to as int));
        let (a, b) = trim_bounds(s, from, dash);
        let floor = match parse_port(s, a, b) {
            None => {
                return Err(invalid_number(text, a, b));
            },
            Some(floor) => floor,
        };
        let (c, d) = trim_bounds(s, dash + 1, to);
        let ceil = match parse_port(s, c, d) {
            None => {
                return Err(invalid_number(text, c, d));
            },
            Some(ceil) => ceil,
        };
        if floor == 0 || ceil == 0 {
            return Err(ParseError::ZeroPort);
        }
        if floor > ceil {
            return Err(ParseError::DecreasingRange);
        }
        insert_range(ports, floor, ceil);
        Ok(())
    }
}

/// Reads a comma-separated list of ports and port ranges.
///
/// Blank tokens, such as those that an empty list or a stray comma leaves,
/// add nothing. The first token that is refused fails the whole list.
pub fn parse_portset(s: &str) -> (r: Result<PortSet, ParseError>)
    ensures
        match r {
            Ok(ports) => portset_of(s@) == Ok::<_, ParseFailure>(port_members(ports)),
            Err(e) => portset_of(s@) == Err::<Set<u16>, _>(e@),
        },
{
    let chars = chars_of(s);
    let n = chars.len();
    let mut ports = new_port_set();
    let mut start: usize = 0;
    proof {
        assert(s@.skip(0) =~= s@);
        lemma_joined_empty(portset_of(s@));
    }
    loop
        invariant
            start <= n == s@.len(),
            chars@ == s@,
            portset_of(s@) == joined(port_members(ports), portset_of(s@.skip(start as int))),
        decreases n - start,
    {
        let ghost rest = s@.skip(start as int);
        let ghost gathered = port_members(ports);
        let end = find_char(&chars, start, n, ',');
        assert(s@.subrange(start as int, n as int) =~= rest);
        assert(rest.take(end - start) =~= s@.subrange(start as int, end as int));
        match add_token(&mut ports, s, &chars, start, end) {
            Err(e) => {
                return Err(e);
            },
            Ok(_) => {},
        }
        if end == n {
            return Ok(ports);
        }
        proof {
            assert(rest.skip(end - start + 1) =~= s@.skip(end + 1));
            lemma_joined_twice(
                gathered,
                token_ports(rest.take(end - start))->Ok_0,
                portset_of(s@.skip(end + 1)),
            );
        }
        start = end + 1;
    }
}

} // verus!
