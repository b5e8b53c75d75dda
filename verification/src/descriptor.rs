//! Device descriptors: the text that names the transport to test.
//!
//! A descriptor is `tcp:` followed by an address, or `serial:` followed by a
//! device name, a colon and a baud rate in decimal. The word `echo` in place
//! of a second descriptor asks for a loopback session on the first.

use vstd::prelude::*;
use vstd::slice::{slice_subrange, slice_to_vec};

verus! {

/// The byte `:` that separates the fields of a descriptor.
pub const COLON: u8 = 58;

/// The byte `+` that may stand before a baud rate.
pub const PLUS: u8 = 43;

/// The bytes of `tcp:`.
pub open spec fn tcp_tag() -> Seq<u8> {
    seq![116u8, 99u8, 112u8, 58u8]
}

/// The bytes of `serial:`.
pub open spec fn serial_tag() -> Seq<u8> {
    seq![115u8, 101u8, 114u8, 105u8, 97u8, 108u8, 58u8]
}

/// The bytes of `echo`.
pub open spec fn echo_word() -> Seq<u8> {
    seq![101u8, 99u8, 104u8, 111u8]
}

/// Number of bytes before the first colon of `s`, or the length of `s` if
/// it holds none.
pub open spec fn field_len(s: Seq<u8>) -> nat
    decreases s.len(),
{
    if s.len() == 0 || s[0] == COLON {
        0
    } else {
        1 + field_len(s.drop_first())
    }
}

/// `b` is one of the bytes `0` to `9`.
pub open spec fn is_digit(b: u8) -> bool {
    48 <= b <= 57
}

/// The number that a string of decimal digits stands for.
pub open spec fn decimal_value(digits: Seq<u8>) -> nat
    decreases digits.len(),
{
    if digits.len() == 0 {
        0
    } else {
        decimal_value(digits.drop_last()) * 10 + (digits.last() - 48) as nat
    }
}

/// Every byte of `s` is a decimal digit.
pub open spec fn all_digits(s: Seq<u8>) -> bool {
    forall|i: int| 0 <= i < s.len() ==> is_digit(#[trigger] s[i])
}

/// `text` without the `+` that may stand first.
pub open spec fn unsigned_part(text: Seq<u8>) -> Seq<u8> {
    if text.len() > 0 && text[0] == PLUS {
        text.skip(1)
    } else {
        text
    }
}

/// The baud rate that `text` gives: one or more decimal digits, with or
/// without a `+` before them, whose value fits in 32 bits.
pub open spec fn baud_of(text: Seq<u8>) -> Option<u32> {
    let digits = unsigned_part(text);
    if digits.len() > 0 && all_digits(digits) && decimal_value(digits) <= u32::MAX {
        Some(decimal_value(digits) as u32)
    } else {
        None
    }
}

/// Why a text is no descriptor.
#[derive(Debug, Clone, Copy, PartialEq, Eq)]
pub enum DescriptorError {
    /// The text starts with neither `tcp:` nor `serial:`.
    UnknownKind,
    /// A serial descriptor without a colon after the device name.
    MissingBaudRate,
    /// A serial descriptor whose baud rate is no decimal number of 32 bits.
    BadBaudRate,
}

/// What a descriptor says, as plain values.
pub enum DescriptorSpec {
    Tcp { address: Seq<u8> },
    Serial { device: Seq<u8>, baud_rate: u32 },
}

/// A parsed descriptor.
#[derive(Debug, PartialEq, Eq)]
pub enum Descriptor {
    /// A TCP peer; `address` is the text after `tcp:`, as it stood.
    Tcp { address: Vec<u8> },
    /// A serial port by device name and baud rate.
    Serial { device: Vec<u8>, baud_rate: u32 },
}

impl View for Descriptor {
    type V = DescriptorSpec;

    open spec fn view(&self) -> DescriptorSpec {
        match self {
            Descriptor::Tcp { address } => DescriptorSpec::Tcp { address: address@ },
            Descriptor::Serial { device, baud_rate } => DescriptorSpec::Serial {
                device: device@,
                baud_rate: *baud_rate,
            },
        }
    }
}

/// What `text` means as a descriptor.
///
/// After `tcp:` the rest is the address. After `serial:` the device name
/// runs up to the next colon, and the baud rate from there up to a further
/// colon or the end; what follows a further colon is ignored.
pub open spec fn parse(text: Seq<u8>) -> Result<DescriptorSpec, DescriptorError> {
    if tcp_tag().is_prefix_of(text) {
        Ok(DescriptorSpec::Tcp { address: text.skip(4) })
    } else if serial_tag().is_prefix_of(text) {
        let rest = text.skip(7);
        let name_len = field_len(rest) as int;
        if name_len == rest.len() {
            Err(DescriptorError::MissingBaudRate)
        } else {
            let tail = rest.skip(name_len + 1);
            match baud_of(tail.take(field_len(tail) as int)) {
                Some(baud_rate) => Ok(
                    DescriptorSpec::Serial { device: rest.take(name_len), baud_rate },
                ),
                None => Err(DescriptorError::BadBaudRate),
            }
        }
    } else {
        Err(DescriptorError::UnknownKind)
    }
}

/// A field ends at the first colon: if no byte before position `k` is a
/// colon, and `k` is the end of `s` or holds a colon, the field has length
/// `k`.
pub proof fn lemma_field_len(s: Seq<u8>, k: int)
    requires
        0 <= k <= s.len(),
        forall|j: int| 0 <= j < k ==> s[j] != COLON,
        k == s.len() || s[k] == COLON,
    ensures
        field_len(s) == k,
    decreases k,
{
    if k > 0 {
        lemma_field_len(s.drop_first(), k - 1);
    }
}

/// Digits that follow never make a number smaller.
pub proof fn lemma_decimal_monotone(s: Seq<u8>, k: int)
    requires
        0 <= k <= s.len(),
    ensures
        decimal_value(s.take(k)) <= decimal_value(s),
    decreases s.len() - k,
{
    if k == s.len() {
        assert(s.take(k) =~= s);
    } else {
        lemma_decimal_monotone(s.drop_last(), k);
        assert(s.drop_last().take(k) =~= s.take(k));
    }
}

/// Position of the first colon at or after `from`, or the length of `text`.
fn field_end(text: &[u8], from: usize) -> (end: usize)
    requires
        from <= text@.len(),
    ensures
        from <= end <= text@.len(),
        end - from == field_len(text@.skip(from as int)),
{
    let mut i: usize = from;
    while i < text.len() && text[i] != COLON
        invariant
            from <= i <= text@.len(),
            forall|j: int| from <= j < i ==> text@[j] != COLON,
        decreases text@.len() - i,
    {
        i = i + 1;
    }
    proof {
        lemma_field_len(text@.skip(from as int), i - from);
    }
    i
}

/// Reads a baud rate.
pub fn parse_baud(text: &[u8]) -> (r: Option<u32>)
    ensures
        r == baud_of(text@),
{
    let start: usize = if text.len() > 0 && text[0] == PLUS {
        1
    } else {
        0
    };
    let ghost digits = unsigned_part(text@);
    assert(digits =~= text@.skip(start as int));
    if start == text.len() {
        return None;
    }
    let mut value: u32 = 0;
    let mut i: usize = start;
    while i < text.len()
        invariant
            start <= i <= text@.len(),
            digits == unsigned_part(text@),
            digits == text@.skip(start as int),
            all_digits(digits.take(i - start)),
            value == decimal_value(digits.take(i - start)),
        decreases text@.len() - i,
    {
        let b = text[i];
        if b < 48 || b > 57 {
            assert(!is_digit(digits[i - start]));
            return None;
        }
        let next: u64 = value as u64 * 10 + (b - 48) as u64;
        proof {
            let longer = digits.take(i - start + 1);
            assert(longer.drop_last() =~= digits.take(i - start));
            assert(longer.last() == b);
            assert(decimal_value(longer) == next);
            lemma_decimal_monotone(digits, i - start + 1);
        }
        if next > u32::MAX as u64 {
            return None;
        }
        value = next as u32;
        i = i + 1;
    }
    proof {
        assert(digits.take(i - start) =~= digits);
    }
    Some(value)
}

/// Whether `text` is the word `echo`.
pub fn is_echo(text: &[u8]) -> (b: bool)
    ensures
        b == (text@ == echo_word()),
{
    let b = text.len() == 4 && text[0] == 101 && text[1] == 99 && text[2] == 104 && text[3] == 111;
    proof {
        if b {
            assert(text@ =~= echo_word());
        }
    }
    b
}

/// Whether `text` starts with `tcp:`.
fn is_tcp(text: &[u8]) -> (b: bool)
    ensures
        b == tcp_tag().is_prefix_of(text@),
{
    text.len() >= 4 && text[0] == 116 && text[1] == 99 && text[2] == 112 && text[3] == COLON
}

/// Whether `text` starts with `serial:`.
fn is_serial(text: &[u8]) -> (b: bool)
    ensures
        b == serial_tag().is_prefix_of(text@),
{
    text.len() >= 7 && text[0] == 115 && text[1] == 101 && text[2] == 114 && text[3] == 105
        && text[4] == 97 && text[5] == 108 && text[6] == COLON
}

/// Reads a descriptor.
pub fn parse_descriptor(text: &[u8]) -> (r: Result<Descriptor, DescriptorError>)
    ensures
        match r {
            Ok(d) => parse(text@) == Ok::<DescriptorSpec, DescriptorError>(d@),
            Err(e) => parse(text@) == Err::<DescriptorSpec, DescriptorError>(e),
        },
{
    let n = text.len();
    if is_tcp(text) {
        let address = slice_to_vec(slice_subrange(text, 4, n));
        Ok(Descriptor::Tcp { address })
    } else if is_serial(text) {
        let name_end = field_end(text, 7);
        if name_end == n {
            return Err(DescriptorError::MissingBaudRate);
        }
        let rate_end = field_end(text, name_end + 1);
        proof {
            let rest = text@.skip(7);
            let name_len = name_end - 7;
            assert(rest.skip(name_len + 1) =~= text@.skip(name_end + 1));
            assert(rest.take(name_len) =~= text@.subrange(7, name_end as int));
            assert(text@.skip(name_end + 1).take(rate_end - name_end - 1) =~= text@.subrange(
                name_end + 1,
                rate_end as int,
            ));
        }
        match parse_baud(slice_subrange(text, name_end + 1, rate_end)) {
            Some(baud_rate) => {
                let device = slice_to_vec(slice_subrange(text, 7, name_end));
                Ok(Descriptor::Serial { device, baud_rate })
            },
            None => Err(DescriptorError::BadBaudRate),
        }
    } else {
        Err(DescriptorError::UnknownKind)
    }
}

/// What a pair of descriptors asks for.
#[derive(Debug, PartialEq, Eq)]
pub enum SessionPlan {
    /// One device, whose own traffic is expected back unchanged.
    Echo(Descriptor),
    /// Two devices, each with traffic of its own.
    Bridge(Descriptor, Descriptor),
}

/// What `first` and `second` ask for, as plain values.
pub open spec fn plan(first: Seq<u8>, second: Seq<u8>) -> Result<
    (DescriptorSpec, Option<DescriptorSpec>),
    DescriptorError,
> {
    match parse(first) {
        Err(e) => Err(e),
        Ok(a) => if second == echo_word() {
            Ok((a, None))
        } else {
            match parse(second) {
                Err(e) => Err(e),
                Ok(b) => Ok((a, Some(b))),
            }
        },
    }
}

impl SessionPlan {
    /// The first device, and the second where there is one.
    pub open spec fn devices(&self) -> (DescriptorSpec, Option<DescriptorSpec>) {
        match self {
            SessionPlan::Echo(a) => (a@, None),
            SessionPlan::Bridge(a, b) => (a@, Some(b@)),
        }
    }
}

/// Reads the two descriptors of a session. `echo` as the second one gives a
/// loopback session on the first; else both must be descriptors, and an
/// error in the first is reported before one in the second.
pub fn plan_session(first: &[u8], second: &[u8]) -> (r: Result<SessionPlan, DescriptorError>)
    ensures
        match r {
            Ok(p) => plan(first@, second@) == Ok::<
                (DescriptorSpec, Option<DescriptorSpec>),
                DescriptorError,
            >(p.devices()) && (p is Echo <==> second@ == echo_word()),
            Err(e) => plan(first@, second@) == Err::<
                (DescriptorSpec, Option<DescriptorSpec>),
                DescriptorError,
            >(e),
        },
{
    let a = match parse_descriptor(first) {
        Ok(a) => a,
        Err(e) => {
            return Err(e);
        },
    };
    if is_echo(second) {
        Ok(SessionPlan::Echo(a))
    } else {
        match parse_descriptor(second) {
            Ok(b) => Ok(SessionPlan::Bridge(a, b)),
            Err(e) => Err(e),
        }
    }
}

} // verus!
