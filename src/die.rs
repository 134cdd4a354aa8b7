use vstd::prelude::*;

verus! {

/// Why a die could not be read or rolled.
#[derive(Clone, Copy, Debug, PartialEq, Eq, Structural)]
pub enum DiceError {
    /// The text holds no `<digits>d<digits>` notation.
    InvalidNotation,
    /// The notation is there, but a number in it does not read as a `u16`,
    /// or the die has no sides to roll.
    InvalidRange,
}

/// An ASCII decimal digit.
pub open spec fn is_digit(c: char) -> bool {
    '0' <= c && c <= '9'
}

/// A non-empty run of ASCII decimal digits.
pub open spec fn is_numeral(s: Seq<char>) -> bool {
    s.len() > 0 && forall|i: int| 0 <= i < s.len() ==> is_digit(#[trigger] s[i])
}

/// The value of a run of decimal digits, most significant first.
pub open spec fn numeral_value(s: Seq<char>) -> nat
    decreases s.len(),
{
    if s.len() == 0 {
        0
    } else {
        numeral_value(s.drop_last()) * 10 + (s.last() as int - '0' as int) as nat
    }
}

/// The digits of a number written as `str::parse::<u16>` reads it: what
/// follows the one `+` that may lead the text.
pub open spec fn unsigned_digits(s: Seq<char>) -> Seq<char> {
    if s.len() > 0 && s[0] == '+' {
        s.skip(1)
    } else {
        s
    }
}

/// `s` reads as a `u16`: an optional `+`, then ASCII digits whose value is at
/// most 65535.
pub open spec fn is_u16_text(s: Seq<char>) -> bool {
    is_numeral(unsigned_digits(s)) && numeral_value(unsigned_digits(s)) <= u16::MAX
}

/// The value of `s` read as a `u16`.
pub open spec fn u16_value(s: Seq<char>) -> u16 {
    numeral_value(unsigned_digits(s)) as u16
}

/// The value of the numeral held in `text[from..to]`, when it is one and fits
/// in a `u16`.
fn read_digits(text: &str, from: usize, to: usize) -> (r: Option<u16>)
    requires
        from <= to <= text@.len(),
    ensures
        ({
            let s = text@.subrange(from as int, to as int);
            r == if is_numeral(s) && numeral_value(s) <= u16::MAX {
                Some(numeral_value(s) as u16)
            } else {
                None
            }
        }),
{
    let ghost s = text@.subrange(from as int, to as int);
    if from == to {
        return None;
    }
    // `acc` is the value read so far, capped at one past the largest `u16`.
    let mut acc: u32 = 0;
    let mut i: usize = from;
    while i < to
        invariant
            from <= i <= to <= text@.len(),
            s == text@.subrange(from as int, to as int),
            forall|k: int| from <= k < i ==> is_digit(#[trigger] text@[k]),
            acc as nat == if numeral_value(text@.subrange(from as int, i as int)) <= 65536 {
                numeral_value(text@.subrange(from as int, i as int))
            } else {
                65536
            },
        decreases to - i,
    {
        let c = text.get_char(i);
        if !('0' <= c && c <= '9') {
            proof {
                assert(s[i - from] == c);
            }
            return None;
        }
        let digit = (c as u32) - ('0' as u32);
        proof {
            let p = text@.subrange(from as int, i as int);
            let q = text@.subrange(from as int, i + 1);
            assert(q.drop_last() =~= p);
            assert(q.last() == c);
            assert(numeral_value(q) == numeral_value(p) * 10 + digit);
        }
        let next = acc * 10 + digit;
        acc = if next > 65536 { 65536 } else { next };
        i = i + 1;
    }
    proof {
        assert(text@.subrange(from as int, to as int) =~= s);
        assert forall|k: int| 0 <= k < s.len() implies is_digit(#[trigger] s[k]) by {
            assert(s[k] == text@[from + k]);
        }
    }
    if acc > 65535 {
        None
    } else {
        Some(acc as u16)
    }
}

/// The value of `text[from..to]` read as a `u16`, when it reads as one.
fn read_u16(text: &str, from: usize, to: usize) -> (r: Option<u16>)
    requires
        from <= to <= text@.len(),
    ensures
        ({
            let s = text@.subrange(from as int, to as int);
            r == if is_u16_text(s) {
                Some(u16_value(s))
            } else {
                None
            }
        }),
{
    let ghost s = text@.subrange(from as int, to as int);
    if from < to && text.get_char(from) == '+' {
        proof {
            assert(s[0] == text@[from as int]);
            assert(unsigned_digits(s) =~= text@.subrange(from + 1, to as int));
        }
        read_digits(text, from + 1, to)
    } else {
        proof {
            if from < to {
                assert(s[0] == text@[from as int]);
            }
            assert(unsigned_digits(s) =~= s);
        }
        read_digits(text, from, to)
    }
}

/// Some `d` in `s` stands between two digits: a substring of `s` is a
/// `<digits>d<digits>` notation.
pub open spec fn contains_notation(s: Seq<char>) -> bool {
    exists|j: int|
        0 < j && j + 1 < s.len() && is_digit(s[j - 1]) && #[trigger] s[j] == 'd' && is_digit(
            s[j + 1],
        )
}

/// `j` is the position of the first `d` in `s`.
pub open spec fn is_first_d(s: Seq<char>, j: int) -> bool {
    0 <= j < s.len() && s[j] == 'd' && forall|i: int| 0 <= i < j ==> #[trigger] s[i] != 'd'
}

/// There is one first `d`, so the one that `parse_notation` picks is `j`.
pub proof fn lemma_first_d_unique(s: Seq<char>, j: int)
    requires
        is_first_d(s, j),
    ensures
        (choose|k: int| is_first_d(s, k)) == j,
{
    let k = choose|k: int| is_first_d(s, k);
    if k < j {
        assert(s[k] != 'd');
    } else if j < k {
        assert(s[j] != 'd');
    }
}

/// What reading `s` as dice notation gives: the count and the number of
/// sides, or why there are none.
///
/// The notation may stand anywhere in `s`. Once it is found, `s` is split at
/// its first `d`, and both sides of the split must read as a `u16`.
pub open spec fn parse_notation(s: Seq<char>) -> Result<(u16, u16), DiceError> {
    if !contains_notation(s) {
        Err(DiceError::InvalidNotation)
    } else {
        let j = choose|j: int| is_first_d(s, j);
        let count = s.take(j);
        let sides = s.skip(j + 1);
        if is_u16_text(count) && is_u16_text(sides) {
            Ok((u16_value(count), u16_value(sides)))
        } else {
            Err(DiceError::InvalidRange)
        }
    }
}

/// The notation, as a regular expression.
pub const NOTATION_PATTERN: &'static str = "[0-9]+d[0-9]+";

/// Relies on regex::Regex::new, which compiles `NOTATION_PATTERN` without
/// error, and on regex::Regex::is_match, which reports whether some substring
/// of `text` matches it, that is whether a `d` stands between two digits.
#[verifier::external_body]
fn regex_finds(pattern: &str, text: &str) -> (r: bool)
    requires
        pattern@ == NOTATION_PATTERN@,
    ensures
        r == contains_notation(text@),
{
    regex::Regex::new(pattern).unwrap().is_match(text)
}

/// Whether `die_string` holds dice notation somewhere in it. Only ASCII
/// digits count as digits.
pub fn validate_diestring(die_string: String) -> (r: bool)
    ensures
        r == contains_notation(die_string@),
{
    regex_finds(NOTATION_PATTERN, die_string.as_str())
}

/// A bag of dice of one kind, read from notation such as `3d6`: three dice of
/// six sides each.
pub struct Die {
    /// The text the die was read from, as it was given.
    pub die_string: String,
    /// How many dice are rolled.
    pub die_count: u16,
    /// How many sides each die has.
    pub die_value: u16,
}

impl Die {
    /// The count and sides are those that the notation text gives.
    pub open spec fn well_formed(&self) -> bool {
        parse_notation(self.die_string@) == Ok::<(u16, u16), DiceError>(
            (self.die_count, self.die_value),
        )
    }

    /// Reads a die from dice notation, keeping the text as it is.
    pub fn parse(text: &String) -> (r: Result<Die, DiceError>)
        ensures
            match r {
                Ok(d) => {
                    &&& d.die_string@ == text@
                    &&& parse_notation(text@) == Ok::<(u16, u16), DiceError>(
                        (d.die_count, d.die_value),
                    )
                },
                Err(e) => parse_notation(text@) == Err::<(u16, u16), DiceError>(e),
            },
            r is Ok ==> r->Ok_0.well_formed(),
            !contains_notation(text@) ==> r == Err::<Die, DiceError>(DiceError::InvalidNotation),
    {
        let t = text.as_str();
        if !validate_diestring(text.clone()) {
            return Err(DiceError::InvalidNotation);
        }
        let len = t.unicode_len();
        let mut j: usize = 0;
        loop
            invariant
                j <= len,
                len == t@.len(),
                t@ == text@,
                contains_notation(t@),
                forall|i: int| 0 <= i < j ==> #[trigger] t@[i] != 'd',
            ensures
                j < len == t@.len(),
                t@[j as int] == 'd',
                forall|i: int| 0 <= i < j ==> #[trigger] t@[i] != 'd',
            decreases len - j,
        {
            if j == len {
                proof {
                    let w = choose|w: int|
                        0 < w && w + 1 < t@.len() && is_digit(t@[w - 1]) && #[trigger] t@[w] == 'd'
                            && is_digit(t@[w + 1]);
                    assert(t@[w] != 'd');
                }
                return Err(DiceError::InvalidNotation);
            }
            if t.get_char(j) == 'd' {
                break;
            }
            j = j + 1;
        }
        proof {
            let s = t@;
            assert(is_first_d(s, j as int));
            lemma_first_d_unique(s, j as int);
            assert(s.take(j as int) =~= s.subrange(0, j as int));
            assert(s.skip(j + 1) =~= s.subrange(j + 1, len as int));
        }
        let count = read_u16(t, 0, j);
        let sides = read_u16(t, j + 1, len);
        match (count, sides) {
            (Some(die_count), Some(die_value)) => {
                Ok(Die { die_string: text.clone(), die_count, die_value })
            },
            _ => Err(DiceError::InvalidRange),
        }
    }

    /// Reads a die from dice notation such as `1d6`, or gives `None` where the
    /// text cannot be read as one.
    pub fn new_from_diestring(die_string: &String) -> (r: Option<Die>)
        ensures
            match r {
                Some(d) => {
                    &&& d.die_string@ == die_string@
                    &&& parse_notation(die_string@) == Ok::<(u16, u16), DiceError>(
                        (d.die_count, d.die_value),
                    )
                },
                None => parse_notation(die_string@) is Err,
            },
            !contains_notation(die_string@) ==> r is None,
    {
        match Die::parse(die_string) {
            Ok(d) => Some(d),
            Err(_) => None,
        }
    }

    /// Rolls every die of the bag once, giving one result per die in order.
    ///
    /// A die with no sides cannot be rolled: that is `InvalidRange`, whatever
    /// the count.
    pub fn roll(&self) -> (r: Result<Vec<u16>, DiceError>)
        ensures
            match r {
                Ok(rolls) => {
                    &&& self.die_value >= 1
                    &&& rolls@.len() == self.die_count
                    &&& forall|i: int|
                        0 <= i < rolls@.len() ==> 1 <= #[trigger] rolls@[i] <= self.die_value
                },
                Err(e) => self.die_value == 0 && e == DiceError::InvalidRange,
            },
            self.die_count == 0 && self.die_value >= 1 ==> (r matches Ok(rolls) && rolls@.len()
                == 0),
    {
        if self.die_value == 0 {
            return Err(DiceError::InvalidRange);
        }
        let mut rolls: Vec<u16> = Vec::new();
        let mut i: u16 = 0;
        while i < self.die_count
            invariant
                i <= self.die_count,
                self.die_value >= 1,
                rolls@.len() == i,
                forall|k: int| 0 <= k < rolls@.len() ==> 1 <= #[trigger] rolls@[k] <= self.die_value,
            decreases self.die_count - i,
        {
            rolls.push(roll_one(self.die_value));
            i = i + 1;
        }
        Ok(rolls)
    }
}

impl PartialEq for Die {
    fn eq(&self, other: &Die) -> (r: bool) {
        self.die_count == other.die_count && self.die_value == other.die_value
            && self.die_string == other.die_string
    }
}

impl vstd::std_specs::cmp::PartialEqSpecImpl for Die {
    open spec fn obeys_eq_spec() -> bool {
        true
    }

    open spec fn eq_spec(&self, other: &Die) -> bool {
        &&& self.die_string@ == other.die_string@
        &&& self.die_count == other.die_count
        &&& self.die_value == other.die_value
    }
}

/// The sum of a sequence of results.
pub open spec fn sum_of(rolls: Seq<u16>) -> nat
    decreases rolls.len(),
{
    if rolls.len() == 0 {
        0
    } else {
        sum_of(rolls.drop_last()) + rolls.last() as nat
    }
}

/// Adds up the results of a roll.
pub fn total(rolls: &Vec<u16>) -> (r: u64)
    requires
        rolls@.len() <= u32::MAX,
    ensures
        r == sum_of(rolls@),
{
    let mut acc: u64 = 0;
    let mut i: usize = 0;
    while i < rolls.len()
        invariant
            i <= rolls@.len() <= u32::MAX,
            acc == sum_of(rolls@.take(i as int)),
            acc <= i * 65535,
        decreases rolls@.len() - i,
    {
        proof {
            assert(rolls@.take(i + 1).drop_last() =~= rolls@.take(i as int));
        }
        acc = acc + rolls[i] as u64;
        i = i + 1;
    }
    proof {
        assert(rolls@.take(i as int) =~= rolls@);
    }
    acc
}

/// A sequence of results, each in `[1, sides]`, adds up to at least its
/// length and at most its length times `sides`.
pub proof fn lemma_sum_bounds(rolls: Seq<u16>, sides: u16)
    requires
        forall|i: int| 0 <= i < rolls.len() ==> 1 <= #[trigger] rolls[i] <= sides,
    ensures
        rolls.len() <= sum_of(rolls) <= rolls.len() * sides,
    decreases rolls.len(),
{
    if rolls.len() > 0 {
        let rest = rolls.drop_last();
        assert forall|i: int| 0 <= i < rest.len() implies 1 <= #[trigger] rest[i] <= sides by {
            assert(rest[i] == rolls[i]);
        }
        lemma_sum_bounds(rest, sides);
        assert(rolls.last() == rolls[rolls.len() - 1]);
        assert(rest.len() * sides + sides == rolls.len() * sides) by (nonlinear_arith)
            requires
                rest.len() + 1 == rolls.len(),
        ;
    }
}

/// Relies on rand's `Uniform::new_inclusive(1, sides)`, which panics only where
/// `sides < 1`, sampled with `thread_rng()`: every outcome lies in `[1, sides]`.
#[verifier::external_body]
fn roll_one(sides: u16) -> (r: u16)
    requires
        sides >= 1,
    ensures
        1 <= r <= sides,
{
    rand::distributions::Distribution::sample(
        &rand::distributions::Uniform::new_inclusive(1u16, sides),
        &mut rand::thread_rng(),
    )
}

/// Any text made of a count that reads as a `u16`, a `d`, and a numeral of
/// sides within `u16`, reads back as exactly those two numbers.
///
/// The sides carry no `+`: after `5d+6` no digit follows the `d`, so that text
/// holds no notation.
pub proof fn lemma_notation_round_trip(count: Seq<char>, sides: Seq<char>)
    requires
        is_u16_text(count),
        is_numeral(sides),
        numeral_value(sides) <= u16::MAX,
    ensures
        parse_notation(count + seq!['d'] + sides) == Ok::<(u16, u16), DiceError>(
            (u16_value(count), numeral_value(sides) as u16),
        ),
{
    let s = count + seq!['d'] + sides;
    let j = count.len() as int;
    let digits = unsigned_digits(count);
    assert(count.len() > 0);
    if count[0] == '+' {
        assert(count[j - 1] == digits[digits.len() - 1]);
    } else {
        assert(digits == count);
    }
    assert(is_digit(count[j - 1]));
    assert(s[j] == 'd');
    assert(s[j - 1] == count[j - 1]);
    assert(s[j + 1] == sides[0]);
    assert(contains_notation(s));
    assert forall|i: int| 0 <= i < j implies #[trigger] s[i] != 'd' by {
        assert(s[i] == count[i]);
        if i > 0 || count[0] != '+' {
            if count[0] == '+' {
                assert(count[i] == digits[i - 1]);
            } else {
                assert(count[i] == digits[i]);
            }
        }
    }
    assert(is_first_d(s, j));
    lemma_first_d_unique(s, j);
    assert(s.take(j) =~= count);
    assert(s.skip(j + 1) =~= sides);
    assert(unsigned_digits(sides) =~= sides);
}

} // verus!
