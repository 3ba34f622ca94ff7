//! What the user sets through environment variables, and what holds where
//! nothing is set. An unset variable is `None`.

use vstd::prelude::*;

use crate::text::chars_of;

verus! {

/// The value of a variable, or the default where it is not set.
pub fn env_or(value: Option<String>, default: &str) -> (setting: String)
    ensures
        match value {
            Some(v) => setting@ == v@,
            None => setting@ == default@,
        },
{
    match value {
        Some(v) => v,
        None => default.to_owned(),
    }
}

/// Where the project under test lies if nothing is set, seen from the home
/// directory.
pub open spec fn default_project(home: Seq<char>) -> Seq<char> {
    home + "/Code/slint-ra-testcases/crates/size_xlarge"@
}

/// The directory of the project under test: `SLINT_TESTCASE`, or a place below
/// `HOME`. There is none if neither variable is set.
pub fn project_dir(testcase: Option<String>, home: Option<String>) -> (dir: Option<String>)
    ensures
        match (testcase, home) {
            (Some(t), _) => dir is Some && dir->0@ == t@,
            (None, Some(h)) => dir is Some && dir->0@ == default_project(h@) && dir->0@ == h@
                + "/Code/slint-ra-testcases/crates/size_xlarge"@,
            (None, None) => dir is None,
        },
{
    match (testcase, home) {
        (Some(t), _) => Some(t),
        (None, Some(h)) => Some(h.concat("/Code/slint-ra-testcases/crates/size_xlarge")),
        (None, None) => None,
    }
}

/// The project lies below the home directory, whatever that is: its path is
/// that of the home directory with the same path behind it.
pub proof fn law_the_project_lies_below_home(home: Seq<char>)
    ensures
        home.is_prefix_of(default_project(home)),
        default_project(home).skip(home.len() as int)
            == "/Code/slint-ra-testcases/crates/size_xlarge"@,
{
    assert(default_project(home).subrange(0, home.len() as int) == home);
}

/// The source file under test, from the project's directory:
/// `SLINT_TESTCASE_FILE`, or the root of a library.
pub fn testcase_file(value: Option<String>) -> (file: String)
    ensures
        match value {
            Some(v) => file@ == v@,
            None => file@ == "src/lib.rs"@,
        },
{
    env_or(value, "src/lib.rs")
}

/// The benchmarks that expand macros in this process.
#[derive(Clone, Copy, Debug, PartialEq, Eq, Structural)]
pub enum SlintBenchmark {
    /// Expands the macro of the file under test over and over.
    ServerSideExpansion,
    /// Compares components with and without imports.
    ImportCost,
}

impl SlintBenchmark {
    /// How often a macro is expanded if nothing is set.
    pub open spec fn default_iterations(self) -> u32 {
        match self {
            SlintBenchmark::ServerSideExpansion => 50,
            SlintBenchmark::ImportCost => 40,
        }
    }

    /// How often a macro is expanded: `SLINT_BENCH_ITERS`, or the benchmark's
    /// default. There is no answer if the variable is set to something else
    /// than a 32-bit number.
    pub fn iterations(self, value: Option<String>) -> (iters: Option<u32>)
        ensures
            match value {
                Some(v) => match iters {
                    Some(n) => parsed_u32(v@) == Some(n as nat),
                    None => parsed_u32(v@) is None,
                },
                None => iters == Some(self.default_iterations()),
            },
    {
        match value {
            Some(v) => parse_u32(v.as_str()),
            None => match self {
                SlintBenchmark::ServerSideExpansion => Some(50),
                SlintBenchmark::ImportCost => Some(40),
            },
        }
    }
}

/// `c` is a decimal digit.
pub open spec fn is_digit(c: char) -> bool {
    '0' <= c <= '9'
}

/// The number that decimal digits write.
pub open spec fn decimal(digits: Seq<char>) -> nat
    decreases digits.len(),
{
    if digits.len() == 0 {
        0
    } else {
        10 * decimal(digits.drop_last()) + (digits.last() as nat - '0' as nat) as nat
    }
}

/// `text` without a plus sign in front.
pub open spec fn unsigned_part(text: Seq<char>) -> Seq<char> {
    if text.len() > 0 && text[0] == '+' {
        text.skip(1)
    } else {
        text
    }
}

/// The number below 2^32 that `text` writes: one digit at least, nothing but
/// digits, with or without a plus sign in front.
pub open spec fn parsed_u32(text: Seq<char>) -> Option<nat> {
    let digits = unsigned_part(text);
    if digits.len() > 0 && (forall|i: int| 0 <= i < digits.len() ==> is_digit(#[trigger] digits[i]))
        && decimal(digits) <= u32::MAX {
        Some(decimal(digits))
    } else {
        None
    }
}

/// More digits write no smaller number.
proof fn lemma_decimal_grows(digits: Seq<char>, n: int)
    requires
        0 <= n <= digits.len(),
    ensures
        decimal(digits.take(n)) <= decimal(digits),
    decreases digits.len() - n,
{
    if n < digits.len() {
        lemma_decimal_grows(digits, n + 1);
        assert(digits.take(n + 1).drop_last() == digits.take(n));
    } else {
        assert(digits.take(n) == digits);
    }
}

/// One digit writes its own value.
pub proof fn law_a_digit_is_read(c: char)
    requires
        '0' <= c <= '9',
    ensures
        parsed_u32(seq![c]) == Some((c as nat - '0' as nat) as nat),
{
    let one = seq![c];
    assert(one.drop_last() == Seq::<char>::empty());
    assert(decimal(one.drop_last()) == 0);
    assert(one.last() == c);
    assert(one[0] == c);
}

/// A digit behind a number multiplies it by ten and adds its own value, as long
/// as the result fits 32 bits, with or without a plus sign in front. What does
/// not fit is no number.
pub proof fn law_digits_are_read_from_the_left(text: Seq<char>, n: nat, c: char)
    requires
        parsed_u32(text) == Some(n),
        '0' <= c <= '9',
    ensures
        ({
            let next = 10 * n + (c as nat - '0' as nat);
            parsed_u32(text.push(c)) == (if next <= u32::MAX {
                Some(next as nat)
            } else {
                None
            })
        }),
{
    let digits = unsigned_part(text);
    let more = text.push(c);
    assert(unsigned_part(more) == digits.push(c));
    assert(digits.push(c).drop_last() == digits);
    assert forall|i: int| 0 <= i < digits.push(c).len() implies is_digit(
        #[trigger] digits.push(c)[i],
    ) by {
        if i < digits.len() {
            assert(digits.push(c)[i] == digits[i]);
        }
    }
}

/// Digits behind what is too large for 32 bits do not make it a number, and
/// neither do digits behind anything else that is none, unless it is empty or a
/// plus sign.
pub proof fn law_what_is_no_number_stays_none(text: Seq<char>, c: char)
    requires
        parsed_u32(text) is None,
        text.len() > 1 || (text.len() == 1 && text[0] != '+'),
    ensures
        parsed_u32(text.push(c)) is None,
{
    let digits = unsigned_part(text);
    let more = digits.push(c);
    assert(unsigned_part(text.push(c)) == more);
    assert(more.drop_last() == digits);
    assert(decimal(more) >= decimal(digits));
    if forall|i: int| 0 <= i < more.len() ==> is_digit(#[trigger] more[i]) {
        assert forall|i: int| 0 <= i < digits.len() implies is_digit(#[trigger] digits[i]) by {
            assert(more[i] == digits[i]);
        }
    }
}

/// A plus sign in front changes nothing, unless one stands there already.
pub proof fn law_a_plus_sign_changes_nothing(text: Seq<char>)
    ensures
        parsed_u32(seq!['+'] + text) == (if text.len() > 0 && text[0] == '+' {
            None
        } else {
            parsed_u32(text)
        }),
{
    let signed = seq!['+'] + text;
    assert(signed[0] == '+');
    assert(unsigned_part(signed) == text);
    if text.len() > 0 && text[0] == '+' {
        assert(!is_digit(text[0]));
    }
}

/// A text without digits is no number, nor is one with any other character than
/// digits behind its sign.
pub proof fn law_only_digits_make_a_number(text: Seq<char>, i: int)
    requires
        text.len() == 0 || (0 <= i < text.len() && !('0' <= text[i] <= '9') && (i > 0 || text[i]
            != '+' || text.len() == 1)),
    ensures
        parsed_u32(text) is None,
{
    let digits = unsigned_part(text);
    if text.len() > 0 && digits.len() > 0 {
        if text[0] == '+' {
            assert(digits[i - 1] == text[i]);
        } else {
            assert(digits[i] == text[i]);
        }
    }
}

/// Reads a number of at most 32 bits.
pub fn parse_u32(text: &str) -> (number: Option<u32>)
    ensures
        match number {
            Some(n) => parsed_u32(text@) == Some(n as nat),
            None => parsed_u32(text@) is None,
        },
{
    let chars = chars_of(text);
    let n: usize = chars.len();
    let start: usize = if n > 0 && chars[0] == '+' {
        1
    } else {
        0
    };
    let ghost digits = unsigned_part(text@);
    assert(digits == text@.skip(start as int));
    if start == n {
        return None;
    }
    let mut value: u32 = 0;
    let mut i: usize = start;
    assert(decimal(digits.take(0)) == 0);
    while i < n
        invariant
            n == chars@.len(),
            start <= i <= n,
            digits == chars@.skip(start as int),
            digits == unsigned_part(text@),
            forall|j: int| 0 <= j < i - start ==> is_digit(#[trigger] digits[j]),
            value == decimal(digits.take(i - start)),
        decreases n - i,
    {
        let c = chars[i];
        assert(digits[i - start] == c);
        if c < '0' || '9' < c {
            return None;
        }
        let digit: u32 = c as u32 - '0' as u32;
        proof {
            assert(digits.take(i + 1 - start).drop_last() == digits.take(i - start));
            lemma_decimal_grows(digits, i + 1 - start);
        }
        value = match value.checked_mul(10) {
            Some(tens) => match tens.checked_add(digit) {
                Some(v) => v,
                None => {
                    return None;
                },
            },
            None => {
                return None;
            },
        };
        i += 1;
    }
    assert(digits.take(n - start) == digits);
    Some(value)
}

} // verus!
