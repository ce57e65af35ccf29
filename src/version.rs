//! Turning an installed client version into the driver assembly version.
use vstd::prelude::*;
use vstd::string::StrSliceExecFns;

use crate::error::ReconcileError;

verus! {

/// Exactly five groups of ASCII digits joined by dots, and nothing else.
pub const VERSION_PATTERN: &'static str = "^([0-9]+)\\.([0-9]+)\\.([0-9]+)\\.([0-9]+)\\.([0-9]+)$";

/// A non-empty run of ASCII digits.
pub open spec fn digit_group(g: Seq<char>) -> bool {
    g.len() > 0 && forall|i: int| 0 <= i < g.len() ==> 48 <= (#[trigger] g[i] as u32) <= 57
}

/// `text` is the five digit groups `g`, joined by dots.
pub open spec fn five_groups(text: Seq<char>, g: Seq<Seq<char>>) -> bool {
    &&& g.len() == 5
    &&& forall|k: int| 0 <= k < 5 ==> digit_group(#[trigger] g[k])
    &&& text == g[0] + seq!['.'] + g[1] + seq!['.'] + g[2] + seq!['.'] + g[3] + seq!['.'] + g[4]
}

/// What a regular-expression search of `text` for `pattern` captures: for
/// the leftmost match, each group in order (group 0 is the whole match),
/// `None` for a group that took no part. `None` where nothing matches or the
/// pattern does not compile.
pub uninterp spec fn regex_captures_of(pattern: Seq<char>, text: Seq<char>) -> Option<
    Seq<Option<Seq<char>>>,
>;

/// Relies on `regex::Regex::new` to compile the pattern and on
/// `Regex::captures` for the groups of the leftmost match; the result
/// depends on the pattern and the text alone. For [`VERSION_PATTERN`], by
/// the crate's syntax (`^` and `$` anchor at the ends of the text, `\.` is a
/// dot, `[0-9]` an ASCII digit), it matches exactly five digit groups joined
/// by dots, and captures them as groups one to five.
#[verifier::external_body]
fn regex_captures(pattern: &str, text: &str) -> (r: Option<Vec<Option<String>>>)
    ensures
        r.deep_view() == regex_captures_of(pattern@, text@),
        pattern@ == VERSION_PATTERN@ ==> match r.deep_view() {
            Some(c) => c.len() == 6 && c[1] is Some && c[2] is Some && c[3] is Some
                && c[4] is Some && c[5] is Some && five_groups(
                text@,
                seq![c[1]->0, c[2]->0, c[3]->0, c[4]->0, c[5]->0],
            ),
            None => !exists|g: Seq<Seq<char>>| five_groups(text@, g),
        },
{
    let re = regex::Regex::new(pattern).ok()?;
    let caps = re.captures(text)?;
    Some(caps.iter().map(|m| m.map(|m| m.as_str().to_string())).collect())
}

/// A group as it appears in the driver version: a lone `0` is dropped.
pub open spec fn kept_unless_zero(g: Seq<char>) -> Seq<char> {
    if g == seq!['0'] {
        Seq::empty()
    } else {
        g
    }
}

/// The driver version for the five groups of an installed version:
/// `2.<g1><g2>.<g3><g4>.<g5>`, where the third and fourth groups are left
/// out when they are `0`. Groups are joined as text, never added.
pub open spec fn net_version(
    g1: Seq<char>,
    g2: Seq<char>,
    g3: Seq<char>,
    g4: Seq<char>,
    g5: Seq<char>,
) -> Seq<char> {
    "2."@ + g1 + g2 + "."@ + kept_unless_zero(g3) + kept_unless_zero(g4) + "."@ + g5
}

/// The driver version for the captures of [`VERSION_PATTERN`], where all
/// five groups are present.
pub open spec fn net_version_of_captures(c: Seq<Option<Seq<char>>>) -> Option<Seq<char>> {
    if c.len() == 6 && c[1] is Some && c[2] is Some && c[3] is Some && c[4] is Some
        && c[5] is Some {
        Some(net_version(c[1]->0, c[2]->0, c[3]->0, c[4]->0, c[5]->0))
    } else {
        None
    }
}

fn is_lone_zero(g: &str) -> (r: bool)
    ensures
        r == (g@ == seq!['0']),
{
    if g.unicode_len() == 1 {
        let c = g.get_char(0);
        proof {
            if c == '0' {
                assert(g@ =~= seq!['0']);
            }
        }
        c == '0'
    } else {
        false
    }
}

fn append_unless_zero(s: &mut String, g: &str)
    ensures
        final(s)@ == old(s)@ + kept_unless_zero(g@),
{
    if !is_lone_zero(g) {
        s.append(g);
    } else {
        assert(old(s)@ + kept_unless_zero(g@) =~= old(s)@);
    }
}

/// Joins five version groups into the driver version.
pub fn build_net_version(g1: &str, g2: &str, g3: &str, g4: &str, g5: &str) -> (r: String)
    ensures
        r@ == net_version(g1@, g2@, g3@, g4@, g5@),
{
    let mut s = String::from_str("2.");
    s.append(g1);
    s.append(g2);
    s.append(".");
    append_unless_zero(&mut s, g3);
    append_unless_zero(&mut s, g4);
    s.append(".");
    s.append(g5);
    s
}

/// The driver version for the captures of a version search, or `None` where
/// a group is missing.
pub fn net_version_from_captures(caps: &Vec<Option<String>>) -> (r: Option<String>)
    ensures
        r.deep_view() == net_version_of_captures(caps.deep_view()),
{
    proof {
        assert(caps.deep_view().len() == caps@.len());
    }
    if caps.len() != 6 {
        return None;
    }
    proof {
        assert forall|i: int| 0 <= i < 6 implies caps.deep_view()[i] == caps@[i].deep_view() by {}
    }
    match (&caps[1], &caps[2], &caps[3], &caps[4], &caps[5]) {
        (Some(g1), Some(g2), Some(g3), Some(g4), Some(g5)) => Some(
            build_net_version(g1.as_str(), g2.as_str(), g3.as_str(), g4.as_str(), g5.as_str()),
        ),
        _ => None,
    }
}

/// The driver assembly version that matches an installed client version.
pub fn get_net_match_ver(version: &str) -> (r: Result<String, ReconcileError>)
    ensures
        match regex_captures_of(VERSION_PATTERN@, version@) {
            None => r matches Err(ReconcileError::VersionParse),
            Some(c) => match net_version_of_captures(c) {
                None => r matches Err(ReconcileError::VersionParse),
                Some(v) => r matches Ok(s) && s@ == v,
            },
        },
        r is Ok <==> exists|g: Seq<Seq<char>>| five_groups(version@, g),
        r matches Ok(s) ==> exists|g: Seq<Seq<char>>|
            five_groups(version@, g) && s@ == net_version(g[0], g[1], g[2], g[3], g[4]),
{
    match regex_captures(VERSION_PATTERN, version) {
        None => Err(ReconcileError::VersionParse),
        Some(caps) => match net_version_from_captures(&caps) {
            None => Err(ReconcileError::VersionParse),
            Some(v) => Ok(v),
        },
    }
}

} // verus!
