//! Small computations whose result may be absent.

use vstd::prelude::*;

verus! {

/// `str`'s `==` compares two string slices character by character.
pub assume_specification[ <str as PartialEq>::eq ](a: &str, b: &str) -> (same: bool)
    ensures
        same == (a@ == b@),
;

/// The quotient of `a` by `b` rounded toward zero.
pub open spec fn truncated_quotient(a: int, b: int) -> int
    recommends
        b != 0,
{
    if a >= 0 {
        a / b
    } else {
        -((-a) / b)
    }
}

/// A quotient is no larger in magnitude than what was divided, and as large
/// only where the divisor is 1 or -1.
pub proof fn lemma_quotient_in_range(a: int, b: int)
    requires
        b != 0,
    ensures
        a >= 0 ==> -a <= truncated_quotient(a, b) <= a,
        a < 0 ==> a <= truncated_quotient(a, b) <= -a,
        b != -1 && a < 0 ==> truncated_quotient(a, b) < -a,
{
    let m = if a >= 0 {
        a
    } else {
        -a
    };
    let q = m / b;
    let r = m % b;
    vstd::arithmetic::div_mod::lemma_fundamental_div_mod(m, b);
    if b > 0 {
        assert(0 <= q <= m) by (nonlinear_arith)
            requires
                m >= 0,
                b > 0,
                m == b * q + r,
                0 <= r < b,
        ;
    } else {
        assert(-m <= q <= 0 && (b != -1 && m > 0 ==> -m < q)) by (nonlinear_arith)
            requires
                m >= 0,
                b < 0,
                m == b * q + r,
                0 <= r < -b,
        ;
    }
}

/// Divides `a` by `b`, rounding toward zero; there is no quotient by zero.
pub fn divide(a: i32, b: i32) -> (r: Option<i32>)
    requires
        !(a == i32::MIN && b == -1),
    ensures
        match r {
            Some(quotient) => b != 0 && quotient == truncated_quotient(a as int, b as int),
            None => b == 0,
        },
{
    if b == 0 {
        None
    } else {
        proof {
            lemma_quotient_in_range(a as int, b as int);
        }
        Some(a / b)
    }
}

/// The first position at which `target` stands in `numbers`.
pub fn find_number(numbers: &[i32], target: i32) -> (r: Option<usize>)
    ensures
        match r {
            Some(position) => {
                &&& position < numbers@.len()
                &&& numbers@[position as int] == target
                &&& forall|k: int| 0 <= k < position ==> numbers@[k] != target
            },
            None => forall|k: int| 0 <= k < numbers@.len() ==> numbers@[k] != target,
        },
{
    let mut i: usize = 0;
    while i < numbers.len()
        invariant
            i <= numbers@.len(),
            forall|k: int| 0 <= k < i ==> numbers@[k] != target,
        decreases numbers@.len() - i,
    {
        if numbers[i] == target {
            return Some(i);
        }
        i += 1;
    }
    None
}

/// The value where there is one, and zero where there is none.
pub fn process_optional_value(value: Option<i32>) -> (r: i32)
    ensures
        r == match value {
            Some(number) => number,
            None => 0,
        },
{
    match value {
        Some(number) => number,
        None => 0,
    }
}

/// Twice the number, unless the number is above one thousand.
pub fn process_number(num: i32) -> (r: Option<i32>)
    requires
        num * 2 >= i32::MIN,
    ensures
        r == if num > 1000 {
            None
        } else {
            Some((num * 2) as i32)
        },
{
    if num > 1000 {
        None
    } else {
        Some(num * 2)
    }
}

/// The error with which the standard library refuses a text that is no
/// integer. Nothing is known of what it holds.
#[verifier::external_type_specification]
#[verifier::external_body]
pub struct ExParseIntError(std::num::ParseIntError);

/// The number that a text denotes when read as a decimal `i32`, where it
/// denotes one.
pub uninterp spec fn parsed_i32(text: Seq<char>) -> Option<i32>;

/// `str::parse::<i32>` reads a text as a decimal `i32`. What it reads
/// depends on the text alone; this names the number and claims no more.
#[verifier::external_body]
fn parse_i32(input: &str) -> (r: Result<i32, std::num::ParseIntError>)
    ensures
        match r {
            Ok(number) => parsed_i32(input@) == Some(number),
            Err(_) => parsed_i32(input@).is_none(),
        },
{
    input.parse::<i32>()
}

/// Reads a number and keeps it unless it is zero. A text that is no number
/// is refused with the error of the standard library.
pub fn parse_and_validate(input: &str) -> (r: Result<Option<i32>, std::num::ParseIntError>)
    ensures
        match r {
            Ok(kept) => match parsed_i32(input@) {
                Some(number) => kept == if number == 0 {
                    None
                } else {
                    Some(number)
                },
                None => false,
            },
            Err(_) => parsed_i32(input@).is_none(),
        },
{
    match parse_i32(input) {
        Ok(number) => Ok(validate_number(number)),
        Err(error) => Err(error),
    }
}

/// Keeps a number that was read unless it is zero, which stands for
/// "nothing given".
pub fn validate_number(number: i32) -> (r: Option<i32>)
    ensures
        r == if number == 0 {
            None
        } else {
            Some(number)
        },
{
    if number == 0 {
        None
    } else {
        Some(number)
    }
}

/// A user of the lookup table.
#[derive(Clone, Debug, PartialEq, Eq)]
pub struct User {
    pub id: u32,
    pub name: String,
}

/// The name of the one user that the table holds.
pub open spec fn known_user_name() -> Seq<char> {
    "Alice"@
}

/// Looks a user up by id. The table holds a single user, under id 1.
pub fn find_user_by_id(id: u32) -> (r: Option<User>)
    ensures
        match r {
            Some(user) => id == 1 && user.id == 1 && user.name@ == known_user_name(),
            None => id != 1,
        },
{
    if id == 1 {
        Some(User { id: 1, name: "Alice".to_owned() })
    } else {
        None
    }
}

/// The settings that have a value.
pub open spec fn config_value(key: Seq<char>) -> Option<u32> {
    if key == "timeout"@ {
        Some(60u32)
    } else if key == "port"@ {
        Some(8080u32)
    } else {
        None
    }
}

/// Looks a setting up by its key.
pub fn get_config_value(key: &str) -> (r: Option<u32>)
    ensures
        r == config_value(key@),
{
    if key.eq("timeout") {
        Some(60)
    } else if key.eq("port") {
        Some(8080)
    } else {
        None
    }
}

} // verus!
