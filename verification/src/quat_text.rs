//! Quaternion literals such as `1+2i-3k`: which of the texts that the
//! reader meets are quaternions, and which part of such a text is which
//! component.

use crate::host::Host;
use crate::quat::{ParseQuatError, Quat};
use regex::Regex;
use vstd::prelude::*;

verus! {

/// What the first match of the regular expression `pattern` in `text`
/// captured: the text of each group, the whole match first, and `None` for
/// a group that took no part. `None` where nothing matches.
pub uninterp spec fn captures_of(pattern: Seq<char>, text: Seq<char>) -> Option<
    Seq<Option<Seq<char>>>,
>;

/// The views of captured groups.
pub open spec fn groups_view(groups: Seq<Option<String>>) -> Seq<Option<Seq<char>>> {
    groups.map_values(
        |g: Option<String>|
            match g {
                Some(s) => Some(s@),
                None => None,
            },
    )
}

/// Matches `text` against the regular expression `pattern`.
///
/// Trusted: `Regex::new` compiles the pattern and `Regex::captures` gives
/// the groups of the leftmost match in the text, or `None` without one; both
/// depend on nothing but the pattern and the text. A pattern that does not
/// compile matches nothing.
#[verifier::external_body]
pub(crate) fn captures(pattern: &str, text: &str) -> (r: Option<Vec<Option<String>>>)
    ensures
        captures_of(pattern@, text@) == (match r {
            Some(groups) => Some(groups_view(groups@)),
            None => None,
        }),
{
    match Regex::new(pattern) {
        Ok(re) => match re.captures(text) {
            Some(caps) => Some(caps.iter().map(|m| m.map(|m| m.as_str().to_string())).collect()),
            None => None,
        },
        Err(_) => None,
    }
}

/// How many shapes a quaternion literal can have.
pub const SHAPES: usize = 14;

/// The pattern of the shape `i`. The shapes are tried in this order: all
/// four components; `i j k`; `i j`; `i k`; `j k`; real with `i j`; real
/// with `i k`; real with `j k`; real with `k`; real with `j`; real with
/// `i`; and `i`, `j`, `k` alone.
pub open spec fn pattern_of(i: usize) -> Seq<char> {
    if i == 0 {
        r"([+-]?[0-9]+(\.[0-9]*)?)([+-][0-9]+(\.[0-9]*)?)i([+-][0-9]+(\.[0-9]*)?)j([+-][0-9]+(\.[0-9]*)?)k"@
    } else if i == 1 {
        r"([+-]?[0-9]+(\.[0-9]*)?)i([+-][0-9]+(\.[0-9]*)?)j([+-][0-9]+(\.[0-9]*)?)k"@
    } else if i == 2 {
        r"([+-]?[0-9]+(\.[0-9]*)?)i([+-][0-9]+(\.[0-9]*)?)j"@
    } else if i == 3 {
        r"([+-]?[0-9]+(\.[0-9]*)?)i([+-][0-9]+(\.[0-9]*)?)k"@
    } else if i == 4 {
        r"([+-]?[0-9]+(\.[0-9]*)?)j([+-][0-9]+(\.[0-9]*)?)k"@
    } else if i == 5 {
        r"([+-]?[0-9]+(\.[0-9]*)?)([+-][0-9]+(\.[0-9]*)?)i([+-][0-9]*(\.[0-9]*)?)j"@
    } else if i == 6 {
        r"([+-]?[0-9]+(\.[0-9]*)?)([+-][0-9]+(\.[0-9]*)?)i([+-][0-9]*(\.[0-9]*)?)k"@
    } else if i == 7 {
        r"([+-]?[0-9]+(\.[0-9]*)?)([+-][0-9]+(\.[0-9]*)?)j([+-][0-9]+(\.[0-9]*)?)k"@
    } else if i == 8 {
        r"([+-]?[0-9]+(\.[0-9]*)?)([+-][0-9]+(\.[0-9]*)?)k"@
    } else if i == 9 {
        r"([+-]?[0-9]+(\.[0-9]*)?)([+-][0-9]+(\.[0-9]*)?)j"@
    } else if i == 10 {
        r"([+-]?[0-9]+(\.[0-9]*)?)([+-][0-9]+(\.[0-9]*)?)i"@
    } else if i == 11 {
        r"([+-]?[0-9]+(\.[0-9]*)?)i"@
    } else if i == 12 {
        r"([+-]?[0-9]+(\.[0-9]*)?)j"@
    } else {
        r"([+-]?[0-9]+(\.[0-9]*)?)k"@
    }
}

/// The group of the shape `i` that holds the component `c` (0 for the real
/// part, 1 to 3 for `i`, `j`, `k`); `None` where the shape has no such
/// component. The numbers of a pattern are its groups 1, 3, 5 and 7.
pub open spec fn group_of(i: usize, c: usize) -> Option<usize> {
    if c < 4 && components(i)[c as int] {
        Some((2 * before(components(i), c as int) + 1) as usize)
    } else {
        None
    }
}

/// Which of the four components the shape `i` has.
pub open spec fn components(i: usize) -> Seq<bool> {
    if i == 0 {
        seq![true, true, true, true]
    } else if i == 1 {
        seq![false, true, true, true]
    } else if i == 2 {
        seq![false, true, true, false]
    } else if i == 3 {
        seq![false, true, false, true]
    } else if i == 4 {
        seq![false, false, true, true]
    } else if i == 5 {
        seq![true, true, true, false]
    } else if i == 6 {
        seq![true, true, false, true]
    } else if i == 7 {
        seq![true, false, true, true]
    } else if i == 8 {
        seq![true, false, false, true]
    } else if i == 9 {
        seq![true, false, true, false]
    } else if i == 10 {
        seq![true, true, false, false]
    } else if i == 11 {
        seq![false, true, false, false]
    } else if i == 12 {
        seq![false, false, true, false]
    } else {
        seq![false, false, false, true]
    }
}

/// How many of the components before `c` are present.
pub open spec fn before(present: Seq<bool>, c: int) -> int
    decreases c,
{
    if c <= 0 {
        0
    } else {
        before(present, c - 1) + if present[c - 1] {
            1int
        } else {
            0int
        }
    }
}

/// The text of the component `c` in the groups of the shape `i`: `None`
/// where the shape has no such component; a group that took no part stands
/// for nothing in the real part and for `1` elsewhere.
pub open spec fn part_of(i: usize, c: usize, groups: Seq<Option<Seq<char>>>) -> Option<Seq<char>> {
    match group_of(i, c) {
        None => None,
        Some(g) => if g < groups.len() && groups[g as int] is Some {
            groups[g as int]
        } else if c == 0 {
            Some(Seq::empty())
        } else {
            Some("1"@)
        },
    }
}

/// The first shape from `i` on that `text` has, with what it captured.
pub open spec fn shape_from(text: Seq<char>, i: usize) -> Option<(usize, Seq<Option<Seq<char>>>)>
    decreases SHAPES - i,
{
    if i >= SHAPES {
        None
    } else {
        match captures_of(pattern_of(i), text) {
            Some(groups) => Some((i, groups)),
            None => shape_from(text, (i + 1) as usize),
        }
    }
}

/// The texts of the four components of a quaternion literal; `None` for a
/// component that the literal does not have.
#[derive(Debug)]
pub struct QuatText {
    pub a: Option<String>,
    pub b: Option<String>,
    pub c: Option<String>,
    pub d: Option<String>,
}

/// The view of a text that may be absent.
pub open spec fn opt_view(s: Option<String>) -> Option<Seq<char>> {
    match s {
        Some(t) => Some(t@),
        None => None,
    }
}

fn pattern(i: usize) -> (p: &'static str)
    requires
        i < SHAPES,
    ensures
        p@ == pattern_of(i),
{
    if i == 0 {
        r"([+-]?[0-9]+(\.[0-9]*)?)([+-][0-9]+(\.[0-9]*)?)i([+-][0-9]+(\.[0-9]*)?)j([+-][0-9]+(\.[0-9]*)?)k"
    } else if i == 1 {
        r"([+-]?[0-9]+(\.[0-9]*)?)i([+-][0-9]+(\.[0-9]*)?)j([+-][0-9]+(\.[0-9]*)?)k"
    } else if i == 2 {
        r"([+-]?[0-9]+(\.[0-9]*)?)i([+-][0-9]+(\.[0-9]*)?)j"
    } else if i == 3 {
        r"([+-]?[0-9]+(\.[0-9]*)?)i([+-][0-9]+(\.[0-9]*)?)k"
    } else if i == 4 {
        r"([+-]?[0-9]+(\.[0-9]*)?)j([+-][0-9]+(\.[0-9]*)?)k"
    } else if i == 5 {
        r"([+-]?[0-9]+(\.[0-9]*)?)([+-][0-9]+(\.[0-9]*)?)i([+-][0-9]*(\.[0-9]*)?)j"
    } else if i == 6 {
        r"([+-]?[0-9]+(\.[0-9]*)?)([+-][0-9]+(\.[0-9]*)?)i([+-][0-9]*(\.[0-9]*)?)k"
    } else if i == 7 {
        r"([+-]?[0-9]+(\.[0-9]*)?)([+-][0-9]+(\.[0-9]*)?)j([+-][0-9]+(\.[0-9]*)?)k"
    } else if i == 8 {
        r"([+-]?[0-9]+(\.[0-9]*)?)([+-][0-9]+(\.[0-9]*)?)k"
    } else if i == 9 {
        r"([+-]?[0-9]+(\.[0-9]*)?)([+-][0-9]+(\.[0-9]*)?)j"
    } else if i == 10 {
        r"([+-]?[0-9]+(\.[0-9]*)?)([+-][0-9]+(\.[0-9]*)?)i"
    } else if i == 11 {
        r"([+-]?[0-9]+(\.[0-9]*)?)i"
    } else if i == 12 {
        r"([+-]?[0-9]+(\.[0-9]*)?)j"
    } else {
        r"([+-]?[0-9]+(\.[0-9]*)?)k"
    }
}

fn present(i: usize, c: usize) -> (r: bool)
    requires
        c < 4,
    ensures
        r == (group_of(i, c) is Some),
{
    if c == 0 {
        i == 0 || (i >= 5 && i <= 10)
    } else if c == 1 {
        i == 0 || i == 1 || i == 2 || i == 3 || i == 5 || i == 6 || i == 10 || i == 11
    } else if c == 2 {
        i == 0 || i == 1 || i == 2 || i == 4 || i == 5 || i == 7 || i == 9 || i == 12
    } else {
        i == 0 || i == 1 || i == 3 || i == 4 || i == 6 || i == 7 || i == 8 || i >= 13
    }
}

/// The text of the component `c` in the groups that the shape `i`
/// captured, as [`part_of`] says: there is none of a component after the
/// fourth, and a shape after the last counts as the last.
pub fn part(i: usize, c: usize, groups: &Vec<Option<String>>) -> (r: Option<String>)
    ensures
        opt_view(r) == part_of(i, c, groups_view(groups@)),
{
    if c >= 4 || !present(i, c) {
        return None;
    }
    let mut g: usize = 1;
    let mut k: usize = 0;
    proof {
        reveal_with_fuel(before, 5);
    }
    while k < c
        invariant
            k <= c < 4,
            g == 2 * before(components(i), k as int) + 1,
            g <= 2 * k + 1,
        decreases c - k,
    {
        proof {
            reveal_with_fuel(before, 5);
        }
        if present(i, k) {
            g += 2;
        }
        k += 1;
    }
    if g < groups.len() {
        match &groups[g] {
            Some(s) => {
                return Some(s.clone());
            },
            None => {},
        }
    }
    if c == 0 {
        Some(String::new())
    } else {
        Some(String::from_str("1"))
    }
}

/// Splits a quaternion literal into the texts of its components. The
/// shapes are tried in their order and the first that the text has decides;
/// a text that has none is no quaternion.
pub fn quat_parts(text: &str) -> (r: Result<QuatText, ParseQuatError>)
    ensures
        match shape_from(text@, 0) {
            Some((i, groups)) => r matches Ok(q) && opt_view(q.a) == part_of(i, 0, groups)
                && opt_view(q.b) == part_of(i, 1, groups) && opt_view(q.c) == part_of(i, 2, groups)
                && opt_view(q.d) == part_of(i, 3, groups),
            None => r is Err,
        },
{
    let mut i: usize = 0;
    while i < SHAPES
        invariant
            i <= SHAPES,
            shape_from(text@, 0) == shape_from(text@, i),
        decreases SHAPES - i,
    {
        match captures(pattern(i), text) {
            Some(groups) => {
                return Ok(
                    QuatText {
                        a: part(i, 0, &groups),
                        b: part(i, 1, &groups),
                        c: part(i, 2, &groups),
                        d: part(i, 3, &groups),
                    },
                );
            },
            None => {},
        }
        i += 1;
    }
    Err(ParseQuatError)
}

/// Whether `answer` is what the host may make of `text` as a number.
pub open spec fn reads_num<H: Host>(host: &H, text: Seq<char>, answer: Option<u64>) -> bool {
    exists|s: &str| s@ == text && call_ensures(H::parse_num, (host, s), answer)
}

/// Whether `bits` is the value of a component with the text `part`: zero
/// for a component that is absent or that the host does not read as a
/// number, and else the number that the host reads.
pub open spec fn component_ok<H: Host>(host: &H, part: Option<Seq<char>>, bits: u64) -> bool {
    match part {
        None => bits == 0,
        Some(t) => reads_num(host, t, Some(bits)) || (reads_num(host, t, None) && bits == 0),
    }
}

/// Whether `q` is a reading of the quaternion literal `text`: the text has
/// a shape, and each component is the value of its part.
pub open spec fn quat_ok<H: Host>(host: &H, text: Seq<char>, q: Quat) -> bool {
    shape_from(text, 0) matches Some(found) && component_ok(host, part_of(found.0, 0, found.1), q.0)
        && component_ok(host, part_of(found.0, 1, found.1), q.1) && component_ok(
        host,
        part_of(found.0, 2, found.1),
        q.2,
    ) && component_ok(host, part_of(found.0, 3, found.1), q.3)
}

/// The bits of the number that the host reads a component text as; zero for
/// a component that is absent or that the host does not read.
fn component<H: Host>(text: &Option<String>, host: &H) -> (bits: u64)
    ensures
        component_ok(host, opt_view(*text), bits),
{
    match text {
        Some(t) => {
            let s = t.as_str();
            let answer = host.parse_num(s);
            assert(reads_num(host, t@, answer));
            match answer {
                Some(n) => n,
                None => 0,
            }
        },
        None => 0,
    }
}

/// Reads a quaternion literal: the text is split by [`quat_parts`] and the
/// host reads each component that is there; the others are zero.
pub fn parse_quat<H: Host>(text: &str, host: &H) -> (r: Result<Quat, ParseQuatError>)
    ensures
        r is Ok <==> shape_from(text@, 0) is Some,
        r matches Ok(q) ==> quat_ok(host, text@, q),
{
    match quat_parts(text) {
        Ok(parts) => Ok(
            Quat(
                component(&parts.a, host),
                component(&parts.b, host),
                component(&parts.c, host),
                component(&parts.d, host),
            ),
        ),
        Err(e) => Err(e),
    }
}

} // verus!
