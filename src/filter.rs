//! The path filter: an ordered table of deny rules, evaluated against the bytes
//! of an observed path. First match wins; a path that no rule matches is allowed.
use vstd::prelude::*;
use vstd::string::StringSliceAdditionalSpecFns;
use crate::text::is_prefix;

verus! {

/// One rule of the path filter: a path that it matches is not recorded.
pub enum DenyRule {
    /// Paths that begin with the pattern.
    Prefix(&'static str),
    /// Paths that hold the pattern anywhere.
    Contains(&'static str),
}

/// `p` occurs in `s` at index `i`.
pub open spec fn occurs_at(s: Seq<u8>, p: Seq<u8>, i: int) -> bool {
    0 <= i && i + p.len() <= s.len() && s.subrange(i, i + p.len()) == p
}

/// `p` occurs somewhere in `s`.
pub open spec fn occurs_in(s: Seq<u8>, p: Seq<u8>) -> bool {
    exists|i: int| occurs_at(s, p, i)
}

impl DenyRule {
    /// The rule matches the path whose bytes are `path`.
    pub open spec fn matches(self, path: Seq<u8>) -> bool {
        match self {
            DenyRule::Prefix(p) => is_prefix(p.spec_bytes(), path),
            DenyRule::Contains(p) => occurs_in(path, p.spec_bytes()),
        }
    }
}

/// No rule of `rules` matches `path`.
pub open spec fn allowed_by(rules: Seq<DenyRule>, path: Seq<u8>) -> bool {
    forall|i: int| 0 <= i < rules.len() ==> !(#[trigger] rules[i]).matches(path)
}

/// The default rules: pseudo-filesystem paths, the diagnostic tool that the
/// dependency closure runs, and terminal devices.
pub open spec fn default_rules() -> Seq<DenyRule> {
    seq![
        DenyRule::Prefix("/proc/"),
        DenyRule::Contains("/usr/bin/ldd"),
        DenyRule::Contains("/dev/tty"),
    ]
}

/// Whether a path, given by its bytes, is worth recording under the default rules.
pub open spec fn path_allowed(path: Seq<u8>) -> bool {
    allowed_by(default_rules(), path)
}

/// The default rules, in the order in which they are tried.
pub fn default_deny_rules() -> (r: Vec<DenyRule>)
    ensures
        r@ == default_rules(),
{
    let r = vec![
        DenyRule::Prefix("/proc/"),
        DenyRule::Contains("/usr/bin/ldd"),
        DenyRule::Contains("/dev/tty"),
    ];
    assert(r@ =~= default_rules());
    r
}

/// Whether the bytes `s` begin with the bytes `p`.
fn bytes_have_prefix(s: &[u8], p: &[u8]) -> (r: bool)
    ensures
        r == is_prefix(p@, s@),
{
    if p.len() > s.len() {
        return false;
    }
    let mut i: usize = 0;
    while i < p.len()
        invariant
            p@.len() <= s@.len(),
            i <= p@.len(),
            forall|k: int| 0 <= k < i ==> s@[k] == p@[k],
        decreases p.len() - i,
    {
        if s[i] != p[i] {
            assert(s@.subrange(0, p@.len() as int)[i as int] != p@[i as int]);
            return false;
        }
        i = i + 1;
    }
    assert(s@.subrange(0, p@.len() as int) =~= p@);
    true
}

/// Whether `p` occurs in `s` at index `at`.
fn bytes_occur_at(s: &[u8], p: &[u8], at: usize) -> (r: bool)
    requires
        at + p@.len() <= s@.len(),
    ensures
        r == occurs_at(s@, p@, at as int),
{
    let n = s.len();
    let mut i: usize = 0;
    while i < p.len()
        invariant
            n == s@.len(),
            at + p@.len() <= s@.len(),
            i <= p@.len(),
            forall|k: int| 0 <= k < i ==> s@[at + k] == p@[k],
        decreases p.len() - i,
    {
        if s[at + i] != p[i] {
            assert(s@.subrange(at as int, at + p@.len())[i as int] != p@[i as int]);
            return false;
        }
        i = i + 1;
    }
    assert(s@.subrange(at as int, at + p@.len()) =~= p@);
    true
}

/// Whether `p` occurs anywhere in `s`.
fn bytes_contain(s: &[u8], p: &[u8]) -> (r: bool)
    ensures
        r == occurs_in(s@, p@),
{
    if p.len() > s.len() {
        return false;
    }
    let last = s.len() - p.len();
    let mut at: usize = 0;
    while at < last
        invariant
            at <= last,
            last + p@.len() == s@.len(),
            forall|k: int| 0 <= k < at ==> !occurs_at(s@, p@, k),
        decreases last - at,
    {
        if bytes_occur_at(s, p, at) {
            return true;
        }
        at = at + 1;
    }
    if bytes_occur_at(s, p, last) {
        return true;
    }
    assert forall|k: int| !occurs_at(s@, p@, k) by {
        if 0 <= k && k > last {
            assert(k + p@.len() > s@.len());
        }
    }
    false
}

impl DenyRule {
    /// Whether the rule matches the path whose bytes are `path`.
    pub fn denies(&self, path: &[u8]) -> (r: bool)
        ensures
            r == self.matches(path@),
    {
        match self {
            DenyRule::Prefix(p) => bytes_have_prefix(path, p.as_bytes()),
            DenyRule::Contains(p) => bytes_contain(path, p.as_bytes()),
        }
    }
}

/// Whether no rule of `rules` matches `path`; the rules are tried in order
/// and the first one that matches decides.
pub fn path_allowed_by(rules: &[DenyRule], path: &[u8]) -> (r: bool)
    ensures
        r == allowed_by(rules@, path@),
{
    let mut i: usize = 0;
    while i < rules.len()
        invariant
            i <= rules@.len(),
            forall|k: int| 0 <= k < i ==> !(#[trigger] rules@[k]).matches(path@),
        decreases rules.len() - i,
    {
        if rules[i].denies(path) {
            return false;
        }
        i = i + 1;
    }
    true
}

/// Whether an observed path is worth recording under the default rules.
pub fn valid_path_to_insert(path: &str) -> (r: bool)
    ensures
        r == path_allowed(path.spec_bytes()),
{
    let rules = default_deny_rules();
    path_allowed_by(rules.as_slice(), path.as_bytes())
}

} // verus!
