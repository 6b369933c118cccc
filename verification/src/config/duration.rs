//! Human-friendly duration strings for the config file (`"30s"`, `"1500ms"`, `"2m"`).

use vstd::prelude::*;

use crate::error::{config_result, ConfigError, ConfigErrorView};
use crate::text::{
    cat2, chars_of, decimal, decimal_digit, decimal_value, is_digit, is_whitespace, lemma_trimming,
    read_decimal, same, slice_text, trim, trim_end, trim_start, trimmed, wide_decimal_text,
};
use crate::time::Duration;

verus! {

/// Wrapper so `Duration` can be written as `"30s"` in TOML.
#[derive(Debug, Clone, Copy, PartialEq, Eq)]
pub struct HumanDuration(pub Duration);

impl View for HumanDuration {
    type V = nat;

    /// The length in milliseconds.
    open spec fn view(&self) -> nat {
        self.0@
    }
}

/// The text of a span of `millis` milliseconds: whole seconds where it is a
/// whole number of them, milliseconds otherwise.
pub open spec fn duration_text(millis: nat) -> Seq<char> {
    if millis % 1000 == 0 {
        decimal(millis / 1000) + "s"@
    } else {
        decimal(millis) + "ms"@
    }
}

impl HumanDuration {
    /// The span of `n` seconds.
    pub fn secs(n: u64) -> (r: HumanDuration)
        ensures
            r@ == 1000 * n as nat,
    {
        HumanDuration(Duration::from_secs(n))
    }

    /// The span of `n` milliseconds.
    pub fn millis(n: u64) -> (r: HumanDuration)
        ensures
            r@ == n,
    {
        HumanDuration(Duration::from_millis(n))
    }

    /// The span itself.
    pub fn get(self) -> (r: Duration)
        ensures
            r == self.0,
            r@ == self@,
    {
        self.0
    }

    /// The text that a configuration writes for the span.
    pub fn text(&self) -> (r: String)
        ensures
            r@ == duration_text(self@),
    {
        let millis: u128 = self.0.as_millis();
        if millis % 1000 == 0 {
            cat2(&wide_decimal_text(millis / 1000), "s")
        } else {
            cat2(&wide_decimal_text(millis), "ms")
        }
    }
}

/// The number of digits that `s` begins with.
pub open spec fn leading_digits(s: Seq<char>) -> int
    decreases s.len(),
{
    if s.len() > 0 && is_digit(s[0]) {
        1 + leading_digits(s.drop_first())
    } else {
        0
    }
}

/// The milliseconds in one of a unit; no unit means seconds.
pub open spec fn unit_millis(unit: Seq<char>) -> Option<nat> {
    if unit == "ms"@ {
        Some(1)
    } else if unit == "s"@ || unit.len() == 0 {
        Some(1000)
    } else if unit == "m"@ {
        Some(60_000)
    } else if unit == "h"@ {
        Some(3_600_000)
    } else {
        None
    }
}

/// The milliseconds that a text writes as `<integer><unit>`, where both the
/// integer and the milliseconds fit in 64 bits.
pub open spec fn parsed_duration(text: Seq<char>) -> Option<nat> {
    let t = trimmed(text);
    let n = leading_digits(t);
    let value = decimal_value(t.subrange(0, n));
    match unit_millis(trimmed(t.subrange(n, t.len() as int))) {
        Some(m) => if n > 0 && value <= u64::MAX && value * m <= u64::MAX {
            Some(value * m)
        } else {
            None
        },
        None => None,
    }
}

/// The digits that a text begins with end at the first character that is none.
pub proof fn lemma_leading_digits(s: Seq<char>, n: int)
    requires
        0 <= n <= s.len(),
        forall|k: int| 0 <= k < n ==> is_digit(#[trigger] s[k]),
        n < s.len() ==> !is_digit(s[n]),
    ensures
        leading_digits(s) == n,
    decreases n,
{
    if n > 0 {
        let rest = s.drop_first();
        assert forall|k: int| 0 <= k < n - 1 implies is_digit(#[trigger] rest[k]) by {
            assert(rest[k] == s[k + 1]);
        }
        assert(is_digit(s[0]));
        lemma_leading_digits(rest, n - 1);
    }
}

/// Parses `<integer><unit>` where unit is one of `ms`, `s`, `m`, `h`.
/// A bare integer is interpreted as seconds.
pub fn parse(text: &str) -> (r: Result<Duration, ConfigError>)
    ensures
        config_result(r) == match parsed_duration(text@) {
            Some(millis) => Ok::<nat, ConfigErrorView>(millis),
            None => Err::<nat, ConfigErrorView>(ConfigErrorView::Duration { value: text@ }),
        },
{
    let t = chars_of(&trim(text));
    let mut n: usize = 0;
    while n < t.len() && decimal_digit(t[n])
        invariant
            0 <= n <= t@.len(),
            forall|k: int| 0 <= k < n ==> is_digit(#[trigger] t@[k]),
        decreases t@.len() - n,
    {
        n += 1;
    }
    proof {
        lemma_leading_digits(t@, n as int);
    }
    let unit = trim(&slice_text(&t, n, t.len()));
    let millis: Option<u64> = match read_decimal(&t, 0, n) {
        None => None,
        Some(value) => {
            if same(&unit, "ms") {
                Some(value)
            } else if same(&unit, "s") || unit.as_str().is_empty() {
                value.checked_mul(1_000)
            } else if same(&unit, "m") {
                value.checked_mul(60_000)
            } else if same(&unit, "h") {
                value.checked_mul(3_600_000)
            } else {
                None
            }
        },
    };
    proof {
        reveal_strlit("ms");
        reveal_strlit("s");
        reveal_strlit("m");
        reveal_strlit("h");
    }
    match millis {
        Some(millis) => Ok(Duration::from_millis(millis)),
        None => Err(ConfigError::Duration { value: text.to_owned() }),
    }
}

/// The text of a number is made of digits, and writes the number.
pub proof fn lemma_decimal(n: nat)
    ensures
        decimal(n).len() > 0,
        forall|k: int| 0 <= k < decimal(n).len() ==> is_digit(#[trigger] decimal(n)[k]),
        decimal_value(decimal(n)) == n,
    decreases n,
{
    if n < 10 {
        let s = decimal(n);
        assert(s.drop_last() =~= seq![]);
        assert(decimal_value(s.drop_last()) == 0);
        assert(s.last() as int == 48 + n);
    } else {
        lemma_decimal(n / 10);
        let s = decimal(n);
        assert(s.drop_last() =~= decimal(n / 10));
        assert(s.last() as int == 48 + n % 10);
    }
}

proof fn lemma_trim_nothing(s: Seq<char>)
    requires
        s.len() > 0 ==> !is_whitespace(s[0]) && !is_whitespace(s.last()),
    ensures
        trimmed(s) == s,
{
    assert(trim_start(s) == s);
    assert(trim_end(s) == s);
}

/// A span that was written and read again is the one it was, as long as its
/// milliseconds fit in 64 bits, which those of every span that was read do.
pub proof fn lemma_duration_round_trip(millis: nat)
    requires
        millis <= u64::MAX,
    ensures
        parsed_duration(duration_text(millis)) == Some(millis),
{
    reveal_strlit("s");
    reveal_strlit("ms");
    let whole = millis % 1000 == 0;
    let value: nat = if whole {
        millis / 1000
    } else {
        millis
    };
    let unit = if whole {
        "s"@
    } else {
        "ms"@
    };
    lemma_decimal(value);
    let digits = decimal(value);
    let text = digits + unit;
    assert(text == duration_text(millis));
    assert(text[0] == digits[0]);
    assert(is_digit(digits[0]));
    assert(text.last() == unit.last());
    lemma_trim_nothing(text);
    assert forall|k: int| 0 <= k < digits.len() implies is_digit(#[trigger] text[k]) by {
        assert(text[k] == digits[k]);
    }
    assert(text[digits.len() as int] == unit[0]);
    lemma_leading_digits(text, digits.len() as int);
    assert(text.subrange(0, digits.len() as int) =~= digits);
    assert(text.subrange(digits.len() as int, text.len() as int) =~= unit);
    lemma_trim_nothing(unit);
    if whole {
        assert("s"@ != "ms"@) by {
            assert("s"@.len() != "ms"@.len());
        }
        assert(value * 1000 == millis);
    } else {
        assert(value * 1 == millis);
    }
}

/// Whatever parses fits in 64 bits of milliseconds: a longer span is an error,
/// not a shorter span.
pub proof fn lemma_parsed_duration_fits(text: Seq<char>)
    ensures
        parsed_duration(text) matches Some(millis) ==> millis <= u64::MAX,
{
}

/// A span of time is a number and its unit, seconds where there is none: a minute is
/// sixty of them, an hour sixty minutes, and a thousand milliseconds are one. Blanks
/// around the number and the unit do not count.
pub proof fn lemma_units(n: nat, gap: Seq<char>, unit: Seq<char>)
    requires
        n <= u64::MAX,
        forall|i: int| 0 <= i < gap.len() ==> is_whitespace(#[trigger] gap[i]),
        unit == ""@ ==> gap.len() == 0,
        unit == ""@ || unit == "ms"@ || unit == "s"@ || unit == "m"@ || unit == "h"@,
    ensures
        ({
            let millis: nat = if unit == "ms"@ {
                n
            } else if unit == "m"@ {
                60_000 * n
            } else if unit == "h"@ {
                3_600_000 * n
            } else {
                1000 * n
            };
            parsed_duration(decimal(n) + gap + unit) == if millis <= u64::MAX {
                Some(millis)
            } else {
                None::<nat>
            }
        }),
{
    reveal_strlit("");
    reveal_strlit("s");
    reveal_strlit("ms");
    reveal_strlit("m");
    reveal_strlit("h");
    assert(""@.len() == 0 && "s"@.len() == 1 && "ms"@.len() == 2 && "m"@.len() == 1 && "h"@.len()
        == 1);
    assert("s"@[0] == 's' && "m"@[0] == 'm' && "h"@[0] == 'h' && "ms"@[0] == 'm' && "ms"@[1]
        == 's');
    lemma_decimal(n);
    let digits = decimal(n);
    let text = digits + gap + unit;
    let d = digits.len() as int;
    assert(text[0] == digits[0] && is_digit(digits[0]));
    if unit.len() > 0 {
        assert(text.last() == unit.last());
    } else {
        assert(gap.len() == 0);
        assert(text =~= digits);
        assert(is_digit(digits[d - 1]));
        assert(text.last() == digits[d - 1]);
    }
    lemma_trim_nothing(text);
    assert forall|k: int| 0 <= k < d implies is_digit(#[trigger] text[k]) by {
        assert(text[k] == digits[k]);
    }
    if gap.len() > 0 {
        assert(text[d] == gap[0] && is_whitespace(gap[0]));
    } else if unit.len() > 0 {
        assert(text[d] == unit[0]);
    }
    lemma_leading_digits(text, d);
    assert(text.subrange(0, d) =~= digits);
    let rest = text.subrange(d, text.len() as int);
    assert(rest =~= gap + unit);
    assert(gap + unit + Seq::<char>::empty() =~= rest);
    lemma_trimming(gap, unit, seq![]);
    assert(trimmed(rest) == unit);
    assert(n * 1 == n);
    assert(n * 1000 == 1000 * n);
    assert(n * 60_000 == 60_000 * n);
    assert(n * 3_600_000 == 3_600_000 * n);
}

/// What does not begin with a digit, blanks aside, is no span of time.
pub proof fn lemma_no_number_no_duration(text: Seq<char>)
    requires
        trimmed(text).len() == 0 || !is_digit(trimmed(text)[0]),
    ensures
        parsed_duration(text) is None,
{
}

} // verus!
