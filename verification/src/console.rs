//! The decisions of the operator's terminal console: what a typed line
//! answers to each kind of prompt. The console itself prints the prompt and
//! reads the line; every function here takes that line as it was read.
use vstd::prelude::*;

use crate::operator::{decimal_chars, push_decimal};
use crate::routing::str_equal;
use crate::text::{parse_unsigned, trim, trim_whitespace, unsigned_value};

verus! {

/// The answer a line gives to a prompt with a default: the line without
/// surrounding whitespace, or the default when nothing else was typed.
pub open spec fn answer_or_default(line: Seq<char>, default: Seq<char>) -> Seq<char> {
    if trim_whitespace(line).len() == 0 {
        default
    } else {
        trim_whitespace(line)
    }
}

/// `LABEL must not be empty`.
pub open spec fn empty_message(label: Seq<char>) -> Seq<char> {
    label + " must not be empty"@
}

/// `LABEL must be a number from 1 to COUNT`.
pub open spec fn choice_message(label: Seq<char>, count: usize) -> Seq<char> {
    label + " must be a number from 1 to "@ + decimal_chars(count as nat)
}

/// `LABEL must be yes or no`.
pub open spec fn yes_no_message(label: Seq<char>) -> Seq<char> {
    label + " must be yes or no"@
}

/// `LABEL must be a positive integer`.
pub open spec fn positive_message(label: Seq<char>) -> Seq<char> {
    label + " must be a positive integer"@
}

fn labelled(label: &str, message: &str) -> (text: String)
    ensures
        text@ == label@ + message@,
{
    let mut text = String::from_str(label);
    text.append(message);
    text
}

/// What a prompt with a default answers for `line`.
pub fn prompt_default(line: &str, default: &str) -> (value: String)
    ensures
        value@ == answer_or_default(line@, default@),
{
    let value = trim(line);
    if value.unicode_len() == 0 {
        String::from_str(default)
    } else {
        String::from_str(value)
    }
}

/// What a prompt for a required value answers for `line`: refused when the
/// answer, after a default where one is offered, is blank.
pub fn prompt_required(label: &str, line: &str, default: Option<&str>) -> (value: Result<
    String,
    String,
>)
    ensures
        ({
            let answer = match default {
                Some(d) => answer_or_default(line@, d@),
                None => trim_whitespace(line@),
            };
            &&& value is Ok <==> trim_whitespace(answer).len() > 0
            &&& value matches Ok(v) ==> v@ == answer
            &&& value matches Err(m) ==> m@ == empty_message(label@)
        }),
{
    let value = match default {
        Some(d) => prompt_default(line, d),
        None => String::from_str(trim(line)),
    };
    if trim(value.as_str()).unicode_len() == 0 {
        Err(labelled(label, " must not be empty"))
    } else {
        Ok(value)
    }
}

/// The zero-based choice that `value` selects among `count` numbered
/// choices: a number from 1 to `count`.
pub open spec fn choice_of(value: Seq<char>, count: usize) -> Option<int> {
    match unsigned_value(value, usize::MAX as nat) {
        Some(n) => if 1 <= n <= count {
            Some(n - 1)
        } else {
            None
        },
        None => None,
    }
}

/// What a numbered-choice prompt over `count` choices answers for `line`.
pub fn prompt_choice(label: &str, count: usize, line: &str) -> (choice: Result<usize, String>)
    ensures
        match choice_of(trim_whitespace(line@), count) {
            Some(c) => choice == Ok::<usize, String>(c as usize),
            None => choice matches Err(m) && m@ == choice_message(label@, count),
        },
{
    parse_choice(label, count, trim(line))
}

/// The zero-based choice that `value` selects among `count` choices.
pub fn parse_choice(label: &str, count: usize, value: &str) -> (choice: Result<usize, String>)
    ensures
        match choice_of(value@, count) {
            Some(c) => choice == Ok::<usize, String>(c as usize),
            None => choice matches Err(m) && m@ == choice_message(label@, count),
        },
{
    match parse_unsigned(value, usize::MAX as u64) {
        Some(n) => {
            let n = n as usize;
            if 1 <= n && n <= count {
                Ok(n - 1)
            } else {
                let mut message = labelled(label, " must be a number from 1 to ");
                push_decimal(&mut message, count as u64);
                Err(message)
            }
        },
        None => {
            let mut message = labelled(label, " must be a number from 1 to ");
            push_decimal(&mut message, count as u64);
            Err(message)
        },
    }
}

/// Whether `n` is the first entry, from 1 to `count`, whose numeral is
/// `value`.
pub open spec fn names_entry(value: Seq<char>, count: usize, n: int) -> bool {
    &&& 1 <= n <= count
    &&& value == decimal_chars(n as nat)
    &&& forall|m: int| 1 <= m < n ==> value != #[trigger] decimal_chars(m as nat)
}

/// The zero-based entry of a numbered menu of `count` entries that `value`
/// names: exactly the numeral of an entry, with no sign and no leading zero.
pub open spec fn menu_entry_of(value: Seq<char>, count: usize) -> Option<int> {
    if exists|n: int| names_entry(value, count, n) {
        Some((choose|n: int| names_entry(value, count, n)) - 1)
    } else {
        None
    }
}

/// The menu entry `value` names among `count` entries, if any.
pub fn parse_menu_entry(value: &str, count: usize) -> (entry: Option<usize>)
    ensures
        match menu_entry_of(value@, count) {
            Some(e) => entry == Some(e as usize),
            None => entry is None,
        },
{
    let mut i: usize = 0;
    while i < count
        invariant
            i <= count,
            forall|m: int| 1 <= m <= i ==> value@ != #[trigger] decimal_chars(m as nat),
        decreases count - i,
    {
        let mut numeral = String::new();
        push_decimal(&mut numeral, (i + 1) as u64);
        assert(numeral@ =~= decimal_chars((i + 1) as nat));
        if str_equal(numeral.as_str(), value) {
            proof {
                let n = (i + 1) as int;
                assert(names_entry(value@, count, n));
                let c = choose|c: int| names_entry(value@, count, c);
                if c < n {
                    assert(value@ != decimal_chars(c as nat));
                } else if c > n {
                    assert(value@ != decimal_chars(n as nat));
                }
            }
            return Some(i);
        }
        i = i + 1;
    }
    proof {
        assert forall|n: int| !names_entry(value@, count, n) by {
            if 1 <= n <= count {
                assert(value@ != decimal_chars(n as nat));
            }
        }
    }
    None
}

/// The answer `value` gives to a yes-or-no question: exactly `yes` or `y`,
/// or exactly `no` or `n`.
pub open spec fn yes_no_of(value: Seq<char>) -> Option<bool> {
    if value == seq!['y', 'e', 's'] || value == seq!['y'] {
        Some(true)
    } else if value == seq!['n', 'o'] || value == seq!['n'] {
        Some(false)
    } else {
        None
    }
}

/// Reads a yes-or-no answer; case matters and nothing else is accepted.
pub fn parse_yes_no(label: &str, value: &str) -> (answer: Result<bool, String>)
    ensures
        match yes_no_of(value@) {
            Some(b) => answer == Ok::<bool, String>(b),
            None => answer matches Err(m) && m@ == yes_no_message(label@),
        },
{
    proof {
        reveal_strlit("yes");
        reveal_strlit("y");
        reveal_strlit("no");
        reveal_strlit("n");
        assert("yes"@ =~= seq!['y', 'e', 's']);
        assert("y"@ =~= seq!['y']);
        assert("no"@ =~= seq!['n', 'o']);
        assert("n"@ =~= seq!['n']);
    }
    if str_equal(value, "yes") || str_equal(value, "y") {
        Ok(true)
    } else if str_equal(value, "no") || str_equal(value, "n") {
        Ok(false)
    } else {
        Err(labelled(label, " must be yes or no"))
    }
}

/// What a yes-or-no prompt with a default answers for `line`.
pub fn prompt_yes_no(label: &str, line: &str, default: bool) -> (answer: Result<bool, String>)
    ensures
        trim_whitespace(line@).len() == 0 ==> answer == Ok::<bool, String>(default),
        trim_whitespace(line@).len() > 0 ==> match yes_no_of(trim_whitespace(line@)) {
            Some(b) => answer == Ok::<bool, String>(b),
            None => answer matches Err(m) && m@ == yes_no_message(label@),
        },
{
    let value = trim(line);
    if value.unicode_len() == 0 {
        return Ok(default);
    }
    parse_yes_no(label, value)
}

/// What a prompt for a positive integer with a positive default answers for
/// `line`: the default when nothing was typed, else the typed number, which
/// must be positive.
pub fn prompt_positive_u64(label: &str, line: &str, default: u64) -> (value: Result<u64, String>)
    ensures
        trim_whitespace(line@).len() == 0 ==> (value is Ok <==> default > 0) && (value is Ok
            ==> value == Ok::<u64, String>(default)),
        value matches Err(m) ==> m@ == positive_message(label@),
        trim_whitespace(line@).len() > 0 ==> match unsigned_value(
            trim_whitespace(line@),
            u64::MAX as nat,
        ) {
            Some(n) => if n > 0 {
                value == Ok::<u64, String>(n as u64)
            } else {
                value is Err
            },
            None => value is Err,
        },
{
    let typed = trim(line);
    let parsed = if typed.unicode_len() == 0 {
        Some(default)
    } else {
        parse_unsigned(typed, u64::MAX)
    };
    match parsed {
        Some(n) => if n > 0 {
            Ok(n)
        } else {
            Err(labelled(label, " must be a positive integer"))
        },
        None => Err(labelled(label, " must be a positive integer")),
    }
}

/// As `prompt_positive_u64`, for a `usize` value.
pub fn prompt_positive_usize(label: &str, line: &str, default: usize) -> (value: Result<
    usize,
    String,
>)
    ensures
        trim_whitespace(line@).len() == 0 ==> (value is Ok <==> default > 0) && (value is Ok
            ==> value == Ok::<usize, String>(default)),
        value matches Err(m) ==> m@ == positive_message(label@),
        trim_whitespace(line@).len() > 0 ==> match unsigned_value(
            trim_whitespace(line@),
            usize::MAX as nat,
        ) {
            Some(n) => if n > 0 {
                value == Ok::<usize, String>(n as usize)
            } else {
                value is Err
            },
            None => value is Err,
        },
{
    let typed = trim(line);
    let parsed = if typed.unicode_len() == 0 {
        Some(default)
    } else {
        match parse_unsigned(typed, usize::MAX as u64) {
            Some(n) => Some(n as usize),
            None => None,
        }
    };
    match parsed {
        Some(n) => if n > 0 {
            Ok(n)
        } else {
            Err(labelled(label, " must be a positive integer"))
        },
        None => Err(labelled(label, " must be a positive integer")),
    }
}

} // verus!
