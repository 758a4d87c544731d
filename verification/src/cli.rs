//! Reading the command line: which flag an argument is, and what its value
//! says.
//!
//! Small on purpose: the game needs none of these to run, and every one of
//! them exists so that a screenshot can be taken the same way twice.

use vstd::prelude::*;

use crate::park::{Facility, StaffKind, Terrain, TilePos};
use crate::text::same;
use crate::tool::Tool;

verus! {

/// The flags the game knows.
#[derive(Debug, Clone, Copy, PartialEq, Eq, Structural)]
pub enum Flag {
    /// `--seed`.
    Seed,
    /// `--screenshot`.
    Screenshot,
    /// `--ticks`.
    Ticks,
    /// `--zoom`.
    Zoom,
    /// `--focus`.
    Focus,
    /// `--hover`.
    Hover,
    /// `--tool`.
    Tool,
    /// `--coaster`.
    Coaster,
    /// `--save`.
    Save,
    /// `--load`.
    Load,
    /// `-h` or `--help`.
    Help,
    /// Anything else.
    Unknown,
}

/// Why a value on the command line was refused.
#[derive(Debug, Clone, Copy, PartialEq, Eq, Structural)]
pub enum CliError {
    /// The value is not a number, or not one the flag can hold.
    NotANumber,
    /// A tile wants `X,Y`.
    NotATile,
    /// There is no tool by that name.
    NoSuchTool,
}

/// Which flag the argument `a` names.
pub open spec fn flag_of(a: Seq<char>) -> Flag {
    if a == "--seed"@ {
        Flag::Seed
    } else if a == "--screenshot"@ {
        Flag::Screenshot
    } else if a == "--ticks"@ {
        Flag::Ticks
    } else if a == "--zoom"@ {
        Flag::Zoom
    } else if a == "--focus"@ {
        Flag::Focus
    } else if a == "--hover"@ {
        Flag::Hover
    } else if a == "--tool"@ {
        Flag::Tool
    } else if a == "--coaster"@ {
        Flag::Coaster
    } else if a == "--save"@ {
        Flag::Save
    } else if a == "--load"@ {
        Flag::Load
    } else if a == "-h"@ || a == "--help"@ {
        Flag::Help
    } else {
        Flag::Unknown
    }
}

/// Which flag an argument is.
pub fn value_of(argument: &str) -> (f: Flag)
    ensures
        f == flag_of(argument@),
{
    if same(argument, "--seed") {
        Flag::Seed
    } else if same(argument, "--screenshot") {
        Flag::Screenshot
    } else if same(argument, "--ticks") {
        Flag::Ticks
    } else if same(argument, "--zoom") {
        Flag::Zoom
    } else if same(argument, "--focus") {
        Flag::Focus
    } else if same(argument, "--hover") {
        Flag::Hover
    } else if same(argument, "--tool") {
        Flag::Tool
    } else if same(argument, "--coaster") {
        Flag::Coaster
    } else if same(argument, "--save") {
        Flag::Save
    } else if same(argument, "--load") {
        Flag::Load
    } else if same(argument, "-h") || same(argument, "--help") {
        Flag::Help
    } else {
        Flag::Unknown
    }
}

/// The tool the name `v` stands for, if any does.
pub open spec fn tool_named(v: Seq<char>) -> Option<Tool> {
    if v == "inspect"@ {
        Some(Tool::Inspect)
    } else if v == "stall"@ {
        Some(Tool::Build(Facility::FoodStall))
    } else if v == "bench"@ {
        Some(Tool::Build(Facility::Bench))
    } else if v == "demolish"@ {
        Some(Tool::Demolish)
    } else if v == "price-up"@ {
        Some(Tool::RaisePrice)
    } else if v == "price-down"@ {
        Some(Tool::LowerPrice)
    } else if v == "raise"@ {
        Some(Tool::Raise)
    } else if v == "dig"@ {
        Some(Tool::Lower)
    } else if v == "path"@ {
        Some(Tool::Lay(Terrain::Path))
    } else if v == "grass"@ {
        Some(Tool::Lay(Terrain::Grass))
    } else if v == "dirt"@ {
        Some(Tool::Lay(Terrain::Dirt))
    } else if v == "water"@ {
        Some(Tool::Lay(Terrain::Water))
    } else if v == "handyman"@ {
        Some(Tool::Hire(StaffKind::Handyman))
    } else if v == "entertainer"@ {
        Some(Tool::Hire(StaffKind::Entertainer))
    } else if v == "fire"@ {
        Some(Tool::Fire)
    } else {
        None
    }
}

/// Reads a tool by name.
pub fn tool(value: &str) -> (t: Result<Tool, CliError>)
    ensures
        t is Ok <==> tool_named(value@) is Some,
        t matches Ok(tool) ==> tool_named(value@) == Some(tool),
        t is Err ==> t == Err::<Tool, CliError>(CliError::NoSuchTool),
{
    if same(value, "inspect") {
        Ok(Tool::Inspect)
    } else if same(value, "stall") {
        Ok(Tool::Build(Facility::FoodStall))
    } else if same(value, "bench") {
        Ok(Tool::Build(Facility::Bench))
    } else if same(value, "demolish") {
        Ok(Tool::Demolish)
    } else if same(value, "price-up") {
        Ok(Tool::RaisePrice)
    } else if same(value, "price-down") {
        Ok(Tool::LowerPrice)
    } else if same(value, "raise") {
        Ok(Tool::Raise)
    } else if same(value, "dig") {
        Ok(Tool::Lower)
    } else if same(value, "path") {
        Ok(Tool::Lay(Terrain::Path))
    } else if same(value, "grass") {
        Ok(Tool::Lay(Terrain::Grass))
    } else if same(value, "dirt") {
        Ok(Tool::Lay(Terrain::Dirt))
    } else if same(value, "water") {
        Ok(Tool::Lay(Terrain::Water))
    } else if same(value, "handyman") {
        Ok(Tool::Hire(StaffKind::Handyman))
    } else if same(value, "entertainer") {
        Ok(Tool::Hire(StaffKind::Entertainer))
    } else if same(value, "fire") {
        Ok(Tool::Fire)
    } else {
        Err(CliError::NoSuchTool)
    }
}

/// Whether `c` is one of the ten decimal digits.
pub open spec fn is_digit(c: char) -> bool {
    '0' <= c <= '9'
}

/// Whether every character of `s` is a decimal digit.
pub open spec fn all_digits(s: Seq<char>) -> bool {
    forall|i: int| 0 <= i < s.len() ==> is_digit(#[trigger] s[i])
}

/// The number the decimal digits `s` spell.
pub open spec fn digits_value(s: Seq<char>) -> nat
    decreases s.len(),
{
    if s.len() == 0 {
        0
    } else {
        digits_value(s.drop_last()) * 10 + ((s.last() as int) - 48) as nat
    }
}

/// What a number written as `s` is worth, sign and all, as the standard
/// library reads one: an optional `+` (or, where `signed`, `-`), then at least
/// one digit, and nothing else.
pub open spec fn number_in(s: Seq<char>, signed: bool) -> Option<int> {
    let negative = signed && s.len() > 0 && s[0] == '-';
    let body = if s.len() > 0 && (s[0] == '+' || negative) {
        s.drop_first()
    } else {
        s
    };
    if body.len() > 0 && all_digits(body) {
        if negative {
            Some(-(digits_value(body) as int))
        } else {
            Some(digits_value(body) as int)
        }
    } else {
        None
    }
}

/// Adding a digit to the end of a number never makes it smaller.
proof fn lemma_digits_grow(s: Seq<char>, k: int)
    requires
        all_digits(s),
        0 <= k <= s.len(),
    ensures
        digits_value(s.subrange(0, k)) <= digits_value(s),
    decreases s.len() - k,
{
    if k < s.len() {
        lemma_digits_grow(s, k + 1);
        let longer = s.subrange(0, k + 1);
        assert(longer.drop_last() =~= s.subrange(0, k));
        assert(is_digit(longer[k]));
    } else {
        assert(s.subrange(0, k) =~= s);
    }
}

/// The digits of `text` from `from` on, as a number no bigger than `limit`.
fn read_digits(text: &str, from: usize, limit: u64) -> (r: Option<u64>)
    requires
        from <= text@.len(),
    ensures
        r matches Some(v) ==> {
            let body = text@.subrange(from as int, text@.len() as int);
            &&& body.len() > 0
            &&& all_digits(body)
            &&& v == digits_value(body)
            &&& v <= limit
        },
        r is None ==> {
            let body = text@.subrange(from as int, text@.len() as int);
            !(body.len() > 0 && all_digits(body) && digits_value(body) <= limit)
        },
{
    let n = text.unicode_len();
    let ghost body = text@.subrange(from as int, text@.len() as int);
    if from >= n {
        return None;
    }
    let mut value: u64 = 0;
    let mut i: usize = from;
    while i < n
        invariant
            n == text@.len(),
            from <= i <= n,
            body == text@.subrange(from as int, n as int),
            all_digits(body.subrange(0, i - from)),
            value == digits_value(body.subrange(0, i - from)),
            value <= limit,
        decreases n - i,
    {
        let c = text.get_char(i);
        let ghost before = body.subrange(0, i - from);
        let ghost after = body.subrange(0, i - from + 1);
        proof {
            assert(after.drop_last() =~= before);
            assert(after.last() == c);
        }
        if c < '0' || c > '9' {
            proof {
                assert(!is_digit(body[i - from]));
            }
            return None;
        }
        let d: u64 = (c as u32 - '0' as u32) as u64;
        let next = match value.checked_mul(10) {
            Some(t) => t.checked_add(d),
            None => None,
        };
        match next {
            Some(v) if v <= limit => {
                value = v;
            },
            _ => {
                proof {
                    assert(all_digits(after));
                    if all_digits(body) {
                        lemma_digits_grow(body, i - from + 1);
                    }
                }
                return None;
            },
        }
        i += 1;
        proof {
            assert(all_digits(after));
        }
    }
    proof {
        assert(body.subrange(0, n - from) =~= body);
    }
    Some(value)
}

/// Reads a whole number that a `u64` can hold, the way the standard library
/// does: an optional `+`, then digits and nothing else.
pub fn parse_u64(text: &str) -> (r: Option<u64>)
    ensures
        r == (match number_in(text@, false) {
            Some(v) => if 0 <= v <= u64::MAX {
                Some(v as u64)
            } else {
                None
            },
            None => None,
        }),
{
    let n = text.unicode_len();
    let from: usize = if n > 0 && text.get_char(0) == '+' {
        1
    } else {
        0
    };
    proof {
        if from == 1 {
            assert(text@.subrange(1, text@.len() as int) =~= text@.drop_first());
        } else {
            assert(text@.subrange(0, text@.len() as int) =~= text@);
        }
    }
    read_digits(text, from, u64::MAX)
}

/// Reads a whole number that an `i32` can hold, the way the standard library
/// does: an optional `+` or `-`, then digits and nothing else.
pub fn parse_i32(text: &str) -> (r: Option<i32>)
    ensures
        r == (match number_in(text@, true) {
            Some(v) => if i32::MIN <= v <= i32::MAX {
                Some(v as i32)
            } else {
                None
            },
            None => None,
        }),
{
    let n = text.unicode_len();
    let negative = n > 0 && text.get_char(0) == '-';
    let from: usize = if n > 0 && (text.get_char(0) == '+' || negative) {
        1
    } else {
        0
    };
    proof {
        if from == 1 {
            assert(text@.subrange(1, text@.len() as int) =~= text@.drop_first());
        } else {
            assert(text@.subrange(0, text@.len() as int) =~= text@);
        }
    }
    let limit: u64 = if negative {
        2_147_483_648
    } else {
        2_147_483_647
    };
    match read_digits(text, from, limit) {
        Some(v) => {
            if negative {
                Some((0i64 - v as i64) as i32)
            } else {
                Some(v as i32)
            }
        },
        None => None,
    }
}

/// The tile `X,Y` names: two numbers either side of the first comma.
pub open spec fn tile_in(v: Seq<char>) -> Option<TilePos> {
    if exists|i: int| 0 <= i < v.len() && v[i] == ',' {
        let i = choose|i: int|
            0 <= i < v.len() && v[i] == ',' && forall|j: int| 0 <= j < i ==> v[j] != ',';
        match (number_in(v.subrange(0, i), true), number_in(v.subrange(i + 1, v.len() as int), true)) {
            (Some(x), Some(y)) => if i32::MIN <= x <= i32::MAX && i32::MIN <= y <= i32::MAX {
                Some(TilePos { x: x as i32, y: y as i32 })
            } else {
                None
            },
            _ => None,
        }
    } else {
        None
    }
}

/// Reads an `X,Y` pair into a tile.
pub fn tile(value: &str) -> (r: Result<TilePos, CliError>)
    ensures
        r is Ok <==> tile_in(value@) is Some,
        r matches Ok(t) ==> tile_in(value@) == Some(t),
        !(exists|i: int| 0 <= i < value@.len() && value@[i] == ',') ==> r == Err::<
            TilePos,
            CliError,
        >(CliError::NotATile),
        (exists|i: int| 0 <= i < value@.len() && value@[i] == ',') && r is Err ==> r == Err::<
            TilePos,
            CliError,
        >(CliError::NotANumber),
{
    let n = value.unicode_len();
    let mut i: usize = 0;
    while i < n
        invariant
            n == value@.len(),
            i <= n,
            forall|j: int| 0 <= j < i ==> value@[j] != ',',
        ensures
            i <= n,
            forall|j: int| 0 <= j < i ==> value@[j] != ',',
            i < n ==> value@[i as int] == ',',
        decreases n - i,
    {
        if value.get_char(i) == ',' {
            break;
        }
        i += 1;
    }
    if i == n {
        return Err(CliError::NotATile);
    }
    let ghost v = value@;
    proof {
        let c = choose|k: int|
            0 <= k < v.len() && v[k] == ',' && forall|j: int| 0 <= j < k ==> v[j] != ',';
        assert(v[i as int] == ',');
        if c < i {
            assert(v[c] != ',');
        }
        if i < c {
            assert(v[i as int] != ',');
        }
    }
    let x_text = value.substring_char(0, i);
    let y_text = value.substring_char(i + 1, n);
    match (parse_i32(x_text), parse_i32(y_text)) {
        (Some(x), Some(y)) => Ok(TilePos::new(x, y)),
        _ => Err(CliError::NotANumber),
    }
}

} // verus!
