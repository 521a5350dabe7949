//! The deterministic shortcut in front of the classification cascade: the
//! stored rules are consulted in order, and a pattern match against the
//! filename yields an immediate destination folder with no external call.
//! Patterns are plain text with `*` standing for any stretch of characters.

use vstd::prelude::*;

use crate::ledger::{rule_views, Rule, RuleModel};

verus! {

/// Does the pattern from position `i` match the text from position `j`?  A
/// `*` swallows any stretch of characters; every other character stands for
/// itself.
pub open spec fn glob_from(p: Seq<char>, s: Seq<char>, i: int, j: int) -> bool
    decreases p.len() + 1 - i, s.len() + 1 - j,
{
    if i < 0 || j < 0 {
        false
    } else if i >= p.len() {
        j >= s.len()
    } else if p[i] == '*' {
        glob_from(p, s, i + 1, j) || (j < s.len() && glob_from(p, s, i, j + 1))
    } else {
        j < s.len() && p[i] == s[j] && glob_from(p, s, i + 1, j + 1)
    }
}

/// Does the whole pattern match the whole text?
pub open spec fn glob_matches(p: Seq<char>, s: Seq<char>) -> bool {
    glob_from(p, s, 0, 0)
}

/// Match a wildcard pattern against a text.
pub fn glob_match(pattern: &str, text: &str) -> (r: bool)
    ensures
        r == glob_matches(pattern@, text@),
{
    let plen = pattern.unicode_len();
    let slen = text.unicode_len();
    glob_match_from(pattern, text, 0, 0, plen, slen)
}

fn glob_match_from(pattern: &str, text: &str, i: usize, j: usize, plen: usize, slen: usize) -> (r:
    bool)
    requires
        plen == pattern@.len(),
        slen == text@.len(),
        i <= plen,
        j <= slen,
    ensures
        r == glob_from(pattern@, text@, i as int, j as int),
    decreases plen - i, slen - j,
{
    if i >= plen {
        return j >= slen;
    }
    let c = pattern.get_char(i);
    if c == '*' {
        if glob_match_from(pattern, text, i + 1, j, plen, slen) {
            return true;
        }
        if j < slen {
            return glob_match_from(pattern, text, i, j + 1, plen, slen);
        }
        false
    } else {
        if j < slen && c == text.get_char(j) {
            glob_match_from(pattern, text, i + 1, j + 1, plen, slen)
        } else {
            false
        }
    }
}

/// The target folder of the first rule, in order, whose pattern matches the
/// filename, if any.
pub open spec fn first_match_spec(rules: Seq<RuleModel>, name: Seq<char>) -> Option<Seq<char>>
    decreases rules.len(),
{
    if rules.len() == 0 {
        None
    } else if glob_matches(rules[0].pattern, name) {
        Some(rules[0].target_folder)
    } else {
        first_match_spec(rules.drop_first(), name)
    }
}

/// Consult the rules in order: the first whose pattern matches the filename
/// decides the destination at once, with no external call.
pub fn first_rule_match(rules: &Vec<Rule>, filename: &str) -> (r: Option<String>)
    ensures
        (match r {
            Some(t) => first_match_spec(rule_views(rules@), filename@) == Some(t@),
            None => first_match_spec(rule_views(rules@), filename@) is None,
        }),
{
    let ghost rv = rule_views(rules@);
    proof {
        assert(rv.skip(0) =~= rv);
    }
    let mut i: usize = 0;
    while i < rules.len()
        invariant
            rv == rule_views(rules@),
            i <= rules@.len(),
            first_match_spec(rv, filename@) == first_match_spec(rv.skip(i as int), filename@),
        decreases rules@.len() - i,
    {
        proof {
            assert(rv.skip(i as int)[0] == rv[i as int]);
            assert(rv[i as int] == rules@[i as int]@);
            assert(rv.skip(i as int).drop_first() =~= rv.skip(i + 1));
        }
        if glob_match(rules[i].pattern.as_str(), filename) {
            return Some(rules[i].target_folder.clone());
        }
        i += 1;
    }
    proof {
        assert(rv.skip(rv.len() as int) =~= Seq::<RuleModel>::empty());
    }
    None
}

} // verus!
