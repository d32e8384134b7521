use vstd::prelude::*;

verus! {

/// `c` is one of the ten ASCII decimal digits.
pub open spec fn is_digit(c: char) -> bool {
    '0' as int <= c as int <= '9' as int
}

/// The number a run of decimal digits denotes; 0 for the empty run.
pub open spec fn decimal_value(digits: Seq<char>) -> nat
    decreases digits.len(),
{
    if digits.len() == 0 {
        0
    } else {
        (10 * decimal_value(digits.drop_last()) + (digits.last() as int - '0' as int)) as nat
    }
}

/// Every character of `text` is a decimal digit.
pub open spec fn all_digits(text: Seq<char>) -> bool {
    forall|i: int| 0 <= i < text.len() ==> is_digit(#[trigger] text[i])
}

/// `text` without the one `+` it may start with.
pub open spec fn unsigned_part(text: Seq<char>) -> Seq<char> {
    if text.len() > 0 && text[0] == '+' {
        text.subrange(1, text.len() as int)
    } else {
        text
    }
}

/// The `usize` that `text` denotes: an optional `+`, then one or more
/// decimal digits whose value fits. `None` for any other text.
pub open spec fn parse_usize(text: Seq<char>) -> Option<usize> {
    let digits = unsigned_part(text);
    if digits.len() > 0 && all_digits(digits) && decimal_value(digits) <= usize::MAX {
        Some(decimal_value(digits) as usize)
    } else {
        None
    }
}

/// `text` holds a comma at `at` and nowhere else.
pub open spec fn sole_comma(text: Seq<char>, at: int) -> bool {
    &&& 0 <= at < text.len()
    &&& forall|j: int| 0 <= j < text.len() ==> ((#[trigger] text[j]) == ',' <==> j == at)
}

/// `text` holds exactly one comma.
pub open spec fn has_sole_comma(text: Seq<char>) -> bool {
    exists|at: int| sole_comma(text, at)
}

/// The pair that `text` denotes when it holds exactly one comma: the number
/// before it and the number after it, if both are numbers.
pub open spec fn pair_around_comma(text: Seq<char>) -> Option<(usize, usize)> {
    let at = choose|at: int| sole_comma(text, at);
    match (
        parse_usize(text.subrange(0, at)),
        parse_usize(text.subrange(at + 1, text.len() as int)),
    ) {
        (Some(x), Some(y)) => Some((x, y)),
        _ => None,
    }
}

/// What is said of a text that is not two fields around one comma.
pub open spec fn not_a_pair_message() -> Seq<char> {
    "Encountered invalid coordinate set when parsing coordinates"@
}

/// What is said of a pair with a field that is no number.
pub open spec fn not_a_number_message() -> Seq<char> {
    "Unable to parse coordinate pair."@
}

/// A longer run of digits denotes no less than any of its prefixes.
proof fn lemma_prefix_value(digits: Seq<char>, n: int)
    requires
        all_digits(digits),
        0 <= n <= digits.len(),
    ensures
        decimal_value(digits.subrange(0, n)) <= decimal_value(digits),
    decreases digits.len() - n,
{
    if n == digits.len() {
        assert(digits.subrange(0, n) =~= digits);
    } else {
        let shorter = digits.drop_last();
        assert(is_digit(digits.last()));
        assert(all_digits(shorter)) by {
            assert forall|i: int| 0 <= i < shorter.len() implies is_digit(
                #[trigger] shorter[i],
            ) by {
                assert(shorter[i] == digits[i]);
            }
        }
        lemma_prefix_value(shorter, n);
        assert(shorter.subrange(0, n) =~= digits.subrange(0, n));
    }
}

/// The characters of `text`, in order.
fn chars_of(text: &str) -> (chars: Vec<char>)
    ensures
        chars@ == text@,
{
    let len = text.unicode_len();
    let mut chars: Vec<char> = Vec::new();
    let mut i: usize = 0;
    while i < len
        invariant
            len == text@.len(),
            i <= len,
            chars@ == text@.subrange(0, i as int),
        decreases len - i,
    {
        chars.push(text.get_char(i));
        assert(chars@ =~= text@.subrange(0, i + 1));
        i += 1;
    }
    assert(chars@ =~= text@);
    chars
}

/// The value of the digit `c`, or `None` if `c` is no decimal digit.
fn digit_of(c: char) -> (digit: Option<usize>)
    ensures
        digit is Some <==> is_digit(c),
        digit is Some ==> digit->0 == c as int - '0' as int,
{
    let code = c as u32;
    if 48 <= code && code <= 57 {
        Some((code - 48) as usize)
    } else {
        None
    }
}

/// Reads the characters from `from` up to `to` as a `usize`.
fn parse_field(chars: &Vec<char>, from: usize, to: usize) -> (number: Option<usize>)
    requires
        from <= to <= chars@.len(),
    ensures
        number == parse_usize(chars@.subrange(from as int, to as int)),
{
    let ghost field = chars@.subrange(from as int, to as int);
    let mut i = from;
    if i < to && chars[i] == '+' {
        i += 1;
    }
    let start = i;
    let ghost digits = chars@.subrange(start as int, to as int);
    assert(digits =~= unsigned_part(field));
    if start == to {
        return None;
    }
    let mut value: usize = 0;
    while i < to
        invariant
            start <= i <= to <= chars@.len(),
            digits == chars@.subrange(start as int, to as int),
            digits == unsigned_part(chars@.subrange(from as int, to as int)),
            digits.len() > 0,
            all_digits(digits.subrange(0, i - start)),
            value == decimal_value(digits.subrange(0, i - start)),
        decreases to - i,
    {
        let ghost seen = digits.subrange(0, i - start);
        let ghost longer = digits.subrange(0, i - start + 1);
        assert(longer.drop_last() =~= seen);
        assert(longer.last() == chars@[i as int]);
        let digit = match digit_of(chars[i]) {
            Some(digit) => digit,
            None => {
                assert(!is_digit(digits[i - start]));
                return None;
            },
        };
        assert(all_digits(longer)) by {
            assert forall|k: int| 0 <= k < longer.len() implies is_digit(#[trigger] longer[k]) by {
                if k < seen.len() {
                    assert(longer[k] == seen[k]);
                }
            }
        }
        let grown = match value.checked_mul(10) {
            Some(tenfold) => tenfold.checked_add(digit),
            None => None,
        };
        match grown {
            Some(next) => {
                value = next;
            },
            None => {
                proof {
                    assert(decimal_value(longer) > usize::MAX);
                    if all_digits(digits) {
                        lemma_prefix_value(digits, i - start + 1);
                    }
                }
                return None;
            },
        }
        i += 1;
    }
    assert(digits.subrange(0, i - start) =~= digits);
    Some(value)
}

/// Reads a coordinate pair written as two numbers around one comma, such as
/// `3,4`. A number is an optional `+` and then decimal digits.
pub fn parse_coordinate_pair(s: &str) -> (outcome: Result<(usize, usize), String>)
    ensures
        !has_sole_comma(s@) ==> outcome is Err && outcome->Err_0@ == not_a_pair_message(),
        has_sole_comma(s@) ==> match pair_around_comma(s@) {
            Some(pair) => outcome == Ok::<(usize, usize), String>(pair),
            None => outcome is Err && outcome->Err_0@ == not_a_number_message(),
        },
{
    let chars = chars_of(s);
    let mut comma: Option<usize> = None;
    let mut i: usize = 0;
    while i < chars.len()
        invariant
            chars@ == s@,
            i <= chars@.len(),
            match comma {
                Some(at) => at < i && sole_comma(chars@.subrange(0, i as int), at as int),
                None => forall|j: int| 0 <= j < i ==> chars@[j] != ',',
            },
        decreases chars@.len() - i,
    {
        if chars[i] == ',' {
            if comma.is_some() {
                proof {
                    let first = comma->0 as int;
                    assert(chars@.subrange(0, i as int)[first] == ',');
                    assert forall|at: int| !sole_comma(s@, at) by {
                        if sole_comma(s@, at) {
                            assert(s@[first] == ',');
                            assert(s@[i as int] == ',');
                        }
                    }
                }
                return Err("Encountered invalid coordinate set when parsing coordinates".to_owned());
            }
            comma = Some(i);
            assert(sole_comma(chars@.subrange(0, i + 1), i as int));
        } else {
            proof {
                if comma is Some {
                    let at = comma->0 as int;
                    let before = chars@.subrange(0, i as int);
                    let after = chars@.subrange(0, i + 1);
                    assert forall|j: int| 0 <= j < after.len() implies ((#[trigger] after[j]) == ','
                        <==> j == at) by {
                        if j < i {
                            assert(after[j] == before[j]);
                        }
                    }
                }
            }
        }
        i += 1;
    }
    assert(chars@.subrange(0, i as int) =~= s@);
    let at = match comma {
        Some(at) => at,
        None => {
            assert forall|at: int| !sole_comma(s@, at) by {
                if sole_comma(s@, at) {
                    assert(s@[at] == ',');
                }
            }
            return Err("Encountered invalid coordinate set when parsing coordinates".to_owned());
        },
    };
    proof {
        let chosen = choose|chosen: int| sole_comma(s@, chosen);
        assert(sole_comma(s@, at as int));
        assert(s@[chosen] == ',');
        assert(chosen == at);
    }
    match (parse_field(&chars, 0, at), parse_field(&chars, at + 1, chars.len())) {
        (Some(x), Some(y)) => Ok((x, y)),
        _ => Err("Unable to parse coordinate pair.".to_owned()),
    }
}

} // verus!
