//! The limit on the memory that extensions may use.
use vstd::prelude::*;
use crate::args::{ArgError, ArgErrorKind};
use crate::lint::names::same_text;
use crate::text::{char_numeric, is_numeric, push_char, push_str, string_of, str_chars};

verus! {

/// How much memory extensions may use.
#[derive(Copy, Clone, Debug, PartialEq, Eq, Structural)]
pub enum MemoryLimit {
    /// At most this many bytes.
    Limited(usize),
    /// No limit.
    Unlimited,
}

impl Default for MemoryLimit {
    fn default() -> (r: MemoryLimit)
        ensures
            r == MemoryLimit::Unlimited,
    {
        MemoryLimit::Unlimited
    }
}

/// The numeric characters of `s`, in order.
pub open spec fn numeric_part(s: Seq<char>) -> Seq<char> {
    s.filter(|c: char| char_numeric(c))
}

/// The other characters of `s`, in order.
pub open spec fn unit_part(s: Seq<char>) -> Seq<char> {
    s.filter(|c: char| !char_numeric(c))
}

/// How reading a decimal number ends.
#[derive(Copy, Clone, Debug, PartialEq, Eq, Structural)]
pub enum NumberError {
    /// There were no digits.
    Empty,
    /// A character is not an ASCII digit.
    InvalidDigit,
    /// The number does not fit in a `usize`.
    Overflow,
}

/// The value of an ASCII digit.
pub open spec fn digit_value(c: char) -> nat {
    (c as nat - '0' as nat) as nat
}

/// Reads the digits `s` after `acc` was read: digit by digit, each checked to
/// be a digit before the value is checked to fit.
pub open spec fn scan_decimal(s: Seq<char>, acc: nat) -> Result<nat, NumberError>
    decreases s.len(),
{
    if s.len() == 0 {
        Ok(acc)
    } else if !('0' <= s[0] && s[0] <= '9') {
        Err(NumberError::InvalidDigit)
    } else if acc * 10 + digit_value(s[0]) > usize::MAX {
        Err(NumberError::Overflow)
    } else {
        scan_decimal(s.drop_first(), acc * 10 + digit_value(s[0]))
    }
}

/// `s` read as a decimal `usize`.
pub open spec fn decimal_value(s: Seq<char>) -> Result<nat, NumberError> {
    if s.len() == 0 {
        Err(NumberError::Empty)
    } else {
        scan_decimal(s, 0)
    }
}

/// What the user is told where a number cannot be read.
pub open spec fn number_error_text(e: NumberError) -> Seq<char> {
    match e {
        NumberError::Empty => "cannot parse integer from empty string"@,
        NumberError::InvalidDigit => "invalid digit found in string"@,
        NumberError::Overflow => "number too large to fit in target type"@,
    }
}

/// The factor that a unit stands for: kibi-, mebi- and gibibytes, or bytes
/// where there is no unit.
pub open spec fn unit_factor(unit: Seq<char>) -> Option<nat> {
    if unit == "K"@ {
        Some(1024)
    } else if unit == "M"@ {
        Some(1024 * 1024)
    } else if unit == "G"@ {
        Some(1024 * 1024 * 1024)
    } else if unit.len() == 0 {
        Some(1)
    } else {
        None
    }
}

/// What a memory limit's text stands for: `Ok` with the number of bytes
/// (`None` for no limit), or `Err` with what the user is told.
pub open spec fn memory_limit_of(raw: Seq<char>) -> Result<Option<nat>, Seq<char>> {
    if raw.len() == 0 {
        Err("need amount"@)
    } else if raw == "unlimited"@ {
        Ok(None)
    } else {
        match decimal_value(numeric_part(raw)) {
            Err(e) => Err(number_error_text(e)),
            Ok(amount) => match unit_factor(unit_part(raw)) {
                None => Err("unrecognised unit: "@ + unit_part(raw)),
                Some(f) => Ok(Some(amount * f)),
            },
        }
    }
}

/// Whether the limit that `raw` asks for is a number of bytes too large for
/// a `usize`: the multiplication that finds it would overflow.
pub open spec fn memory_limit_overflows(raw: Seq<char>) -> bool {
    memory_limit_of(raw) matches Ok(Some(n)) && n > usize::MAX
}

/// The numeric and the other characters of `cs`, each in order.
fn partition_numeric(cs: &Vec<char>) -> (r: (String, String))
    ensures
        r.0@ == numeric_part(cs@),
        r.1@ == unit_part(cs@),
{
    let mut digits = String::new();
    let mut unit = String::new();
    let mut i: usize = 0;
    proof {
        reveal(Seq::filter);
        assert(digits@ =~= Seq::<char>::empty());
        assert(unit@ =~= Seq::<char>::empty());
        assert(cs@.take(0) =~= Seq::<char>::empty());
    }
    while i < cs.len()
        invariant
            i <= cs@.len(),
            digits@ == numeric_part(cs@.take(i as int)),
            unit@ == unit_part(cs@.take(i as int)),
        decreases cs@.len() - i,
    {
        proof {
            reveal(Seq::filter);
            assert(cs@.take(i + 1).drop_last() =~= cs@.take(i as int));
            assert(cs@.take(i + 1).last() == cs@[i as int]);
        }
        let c = cs[i];
        if is_numeric(c) {
            push_char(&mut digits, c);
        } else {
            push_char(&mut unit, c);
        }
        i = i + 1;
    }
    proof {
        assert(cs@.take(cs@.len() as int) =~= cs@);
    }
    (digits, unit)
}

/// Reads the decimal `usize` that `s` writes.
fn read_decimal(s: &Vec<char>) -> (r: Result<usize, NumberError>)
    ensures
        match r {
            Ok(v) => decimal_value(s@) == Ok::<nat, NumberError>(v as nat),
            Err(e) => decimal_value(s@) == Err::<nat, NumberError>(e),
        },
{
    if s.len() == 0 {
        return Err(NumberError::Empty);
    }
    let mut acc: usize = 0;
    let mut i: usize = 0;
    assert(s@.skip(0) =~= s@);
    while i < s.len()
        invariant
            i <= s@.len(),
            s@.len() > 0,
            decimal_value(s@) == scan_decimal(s@.skip(i as int), acc as nat),
        decreases s@.len() - i,
    {
        let c = s[i];
        proof {
            assert(s@.skip(i as int)[0] == c);
            assert(s@.skip(i as int).drop_first() =~= s@.skip(i + 1));
        }
        if !('0' <= c && c <= '9') {
            return Err(NumberError::InvalidDigit);
        }
        let d = (c as u32 - '0' as u32) as usize;
        proof {
            assert(d == digit_value(c));
        }
        let next = match acc.checked_mul(10) {
            Some(m) => m.checked_add(d),
            None => None,
        };
        match next {
            Some(n) => {
                acc = n;
            },
            None => {
                return Err(NumberError::Overflow);
            },
        }
        i = i + 1;
    }
    proof {
        assert(s@.skip(s@.len() as int) =~= Seq::<char>::empty());
    }
    Ok(acc)
}

/// The text for a number that cannot be read.
fn number_error_message(e: NumberError) -> (s: &'static str)
    ensures
        s@ == number_error_text(e),
{
    match e {
        NumberError::Empty => "cannot parse integer from empty string",
        NumberError::InvalidDigit => "invalid digit found in string",
        NumberError::Overflow => "number too large to fit in target type",
    }
}

/// The factor a unit stands for.
fn factor_of(unit: &str) -> (r: Option<usize>)
    ensures
        match unit_factor(unit@) {
            Some(f) => r == Some(f as usize),
            None => r is None,
        },
{
    proof {
        reveal_strlit("K");
        reveal_strlit("M");
        reveal_strlit("G");
        reveal_strlit("");
        assert(unit@.len() == 0 ==> unit@ =~= ""@);
    }
    if same_text(unit, "K") {
        Some(1024)
    } else if same_text(unit, "M") {
        Some(1024 * 1024)
    } else if same_text(unit, "G") {
        Some(1024 * 1024 * 1024)
    } else if same_text(unit, "") {
        Some(1)
    } else {
        None
    }
}

impl MemoryLimit {
    /// Whether the limit that `raw` asks for is too large to hold, so that
    /// `try_from` must not be called on it.
    pub fn overflows(raw: &str) -> (r: bool)
        ensures
            r == memory_limit_overflows(raw@),
    {
        proof {
            reveal_strlit("");
            reveal_strlit("unlimited");
            assert(raw@.len() == 0 ==> raw@ =~= ""@);
        }
        if same_text(raw, "") || same_text(raw, "unlimited") {
            return false;
        }
        let cs = str_chars(raw);
        let (digits, unit) = partition_numeric(&cs);
        let ds = str_chars(digits.as_str());
        match read_decimal(&ds) {
            Err(_) => false,
            Ok(amount) => match factor_of(unit.as_str()) {
                None => false,
                Some(factor) => amount.checked_mul(factor).is_none(),
            },
        }
    }

    /// Reads a memory limit: `unlimited`, or a number of bytes, kibibytes
    /// (`K`), mebibytes (`M`) or gibibytes (`G`). The digits are the numeric
    /// characters of `raw` and the unit the others, wherever they stand.
    pub fn try_from(raw: &str) -> (r: Result<MemoryLimit, ArgError>)
        requires
            !memory_limit_overflows(raw@),
        ensures
            match memory_limit_of(raw@) {
                Ok(None) => r == Ok::<MemoryLimit, ArgError>(MemoryLimit::Unlimited),
                Ok(Some(n)) => r matches Ok(MemoryLimit::Limited(m)) && m == n,
                Err(msg) => r matches Err(e) && e.kind == ArgErrorKind::InvalidValue && e.message@ == msg,
            },
    {
        proof {
            reveal_strlit("");
            reveal_strlit("unlimited");
            assert(raw@.len() == 0 ==> raw@ =~= ""@);
        }
        if same_text(raw, "") {
            return Err(ArgError::new(ArgErrorKind::InvalidValue, "need amount"));
        }
        if same_text(raw, "unlimited") {
            return Ok(MemoryLimit::Unlimited);
        }
        let cs = str_chars(raw);
        let (digits, unit) = partition_numeric(&cs);
        let ds = str_chars(digits.as_str());
        let amount = match read_decimal(&ds) {
            Ok(a) => a,
            Err(e) => {
                return Err(ArgError::new(ArgErrorKind::InvalidValue, number_error_message(e)));
            },
        };
        let factor = match factor_of(unit.as_str()) {
            Some(f) => f,
            None => {
                let mut msg = string_of("unrecognised unit: ");
                push_str(&mut msg, unit.as_str());
                return Err(ArgError { kind: ArgErrorKind::InvalidValue, message: msg });
            },
        };
        Ok(MemoryLimit::Limited(amount * factor))
    }
}

} // verus!
