//! The RBAC engine.
//!
//! Policy rules are evaluated in insertion order against the pair
//! (resource, identity); the first matching rule's decision wins, and when no
//! rule matches the answer is **deny**.  A rule may constrain any subset of
//! the resource kind, the resource identifier (by glob pattern), one required
//! claim key/value, and the required peer identity; an unconstrained field is
//! a wildcard.

use vstd::prelude::*;

verus! {

/// The caller's authenticated view: optional JWT claims (as key/value pairs)
/// plus an optional peer identity from the trusted proxy-protocol frame.
/// Both absent is the anonymous identity.
#[derive(Clone, Debug)]
pub struct Identity {
    pub claims: Option<Vec<(String, String)>>,
    pub peer: Option<String>,
}

/// The kind of capability a rule or a reference speaks of.
#[derive(Clone, Copy, Debug, PartialEq, Eq, Structural)]
pub enum ResourceKind {
    Tool,
    Prompt,
    Resource,
}

/// A reference to one guarded capability.  Tools and prompts carry their
/// namespaced `target:item` identifier; resources carry their raw URI.
#[derive(Clone, Debug)]
pub enum ResourceRef {
    Tool { id: String },
    Prompt { id: String },
    Resource { uri: String },
}

impl ResourceRef {
    /// The kind of the referenced capability.
    pub open spec fn kind(self) -> ResourceKind {
        match self {
            ResourceRef::Tool { .. } => ResourceKind::Tool,
            ResourceRef::Prompt { .. } => ResourceKind::Prompt,
            ResourceRef::Resource { .. } => ResourceKind::Resource,
        }
    }

    /// The identifier a rule's pattern is held against.
    pub open spec fn id_chars(self) -> Seq<char> {
        match self {
            ResourceRef::Tool { id } => id@,
            ResourceRef::Prompt { id } => id@,
            ResourceRef::Resource { uri } => uri@,
        }
    }

    /// The kind, computed.
    pub fn kind_of(&self) -> (k: ResourceKind)
        ensures
            k == self.kind(),
    {
        match self {
            ResourceRef::Tool { .. } => ResourceKind::Tool,
            ResourceRef::Prompt { .. } => ResourceKind::Prompt,
            ResourceRef::Resource { .. } => ResourceKind::Resource,
        }
    }

    /// The identifier, borrowed.
    pub fn id_str(&self) -> (r: &String)
        ensures
            r@ == self.id_chars(),
    {
        match self {
            ResourceRef::Tool { id } => id,
            ResourceRef::Prompt { id } => id,
            ResourceRef::Resource { uri } => uri,
        }
    }
}

/// Glob matching, one step at a time from positions `pi` in the pattern and
/// `ti` in the text.  `*` matches any (possibly empty) run of characters;
/// every other pattern character matches only itself.
pub open spec fn glob_match_at(p: Seq<char>, t: Seq<char>, pi: int, ti: int) -> bool
    decreases p.len() - pi, t.len() - ti,
    when 0 <= pi <= p.len() && 0 <= ti <= t.len()
{
    if pi == p.len() {
        ti == t.len()
    } else if p[pi] == '*' {
        glob_match_at(p, t, pi + 1, ti) || (ti < t.len() && glob_match_at(p, t, pi, ti + 1))
    } else {
        ti < t.len() && p[pi] == t[ti] && glob_match_at(p, t, pi + 1, ti + 1)
    }
}

/// Does glob pattern `p` match the whole text `t`?
pub open spec fn glob_match(p: Seq<char>, t: Seq<char>) -> bool {
    glob_match_at(p, t, 0, 0)
}

fn glob_step(p: &str, t: &str, pi: usize, ti: usize, pn: usize, tn: usize) -> (r: bool)
    requires
        pi <= pn,
        ti <= tn,
        pn == p@.len(),
        tn == t@.len(),
    ensures
        r == glob_match_at(p@, t@, pi as int, ti as int),
    decreases pn - pi, tn - ti,
{
    if pi == pn {
        ti == tn
    } else {
        let pc = p.get_char(pi);
        if pc == '*' {
            if glob_step(p, t, pi + 1, ti, pn, tn) {
                true
            } else {
                ti < tn && glob_step(p, t, pi, ti + 1, pn, tn)
            }
        } else {
            if ti < tn {
                let tc = t.get_char(ti);
                pc == tc && glob_step(p, t, pi + 1, ti + 1, pn, tn)
            } else {
                false
            }
        }
    }
}

/// Match glob pattern `p` against the whole of `t`.
pub fn glob_match_str(p: &str, t: &str) -> (r: bool)
    ensures
        r == glob_match(p@, t@),
{
    let pn: usize = p.unicode_len();
    let tn: usize = t.unicode_len();
    glob_step(p, t, 0, 0, pn, tn)
}

/// Does the claim list carry `key` with value `value`?
pub open spec fn claims_contain(cs: Seq<(String, String)>, key: Seq<char>, value: Seq<char>) -> bool {
    exists|i: int| 0 <= i < cs.len() && cs[i].0@ == key && cs[i].1@ == value
}

proof fn lemma_exact_pattern_at(p: Seq<char>, t: Seq<char>, pi: int, ti: int)
    requires
        0 <= pi <= p.len(),
        0 <= ti <= t.len(),
        forall|j: int| pi <= j < p.len() ==> p[j] != '*',
    ensures
        glob_match_at(p, t, pi, ti) == (p.subrange(pi, p.len() as int) == t.subrange(
            ti,
            t.len() as int,
        )),
    decreases p.len() - pi,
{
    let ps = p.subrange(pi, p.len() as int);
    let ts = t.subrange(ti, t.len() as int);
    if pi == p.len() {
        if ti == t.len() {
            assert(ps =~= ts);
        } else {
            assert(ps.len() != ts.len());
        }
    } else {
        if ti == t.len() {
            assert(ps.len() != ts.len());
        } else {
            lemma_exact_pattern_at(p, t, pi + 1, ti + 1);
            assert(p[pi] != '*');
            if glob_match_at(p, t, pi, ti) {
                assert(p[pi] == t[ti] && glob_match_at(p, t, pi + 1, ti + 1));
                assert(p.subrange(pi + 1, p.len() as int) == t.subrange(ti + 1, t.len() as int));
                assert(p.subrange(pi + 1, p.len() as int).len() == t.subrange(
                    ti + 1,
                    t.len() as int,
                ).len());
                assert(ps.len() == ts.len());
                assert forall|k: int| 0 <= k < ps.len() implies ps[k] == ts[k] by {
                    if k == 0 {
                        assert(ps[0] == p[pi]);
                        assert(ts[0] == t[ti]);
                    } else {
                        assert(ps[k] == p.subrange(pi + 1, p.len() as int)[k - 1]);
                        assert(ts[k] == t.subrange(ti + 1, t.len() as int)[k - 1]);
                    }
                }
                assert(ps =~= ts);
            }
            if ps == ts {
                assert(ts.len() == ps.len());
                assert(ps[0] == p[pi]);
                assert(ts[0] == t[ti]);
                assert forall|k: int| 0 <= k < p.len() - pi - 1 implies #[trigger] p.subrange(
                    pi + 1,
                    p.len() as int,
                )[k] == t.subrange(ti + 1, t.len() as int)[k] by {
                    assert(p.subrange(pi + 1, p.len() as int)[k] == ps[k + 1]);
                    assert(t.subrange(ti + 1, t.len() as int)[k] == ts[k + 1]);
                }
                assert(p.subrange(pi + 1, p.len() as int) =~= t.subrange(ti + 1, t.len() as int));
                assert(glob_match_at(p, t, pi, ti));
            }
        }
    }
}

/// A pattern without `*` is exact: it matches precisely itself.
pub proof fn lemma_exact_pattern(p: Seq<char>, t: Seq<char>)
    requires
        !p.contains('*'),
    ensures
        glob_match(p, t) <==> p == t,
{
    assert forall|j: int| 0 <= j < p.len() implies p[j] != '*' by {
        if p[j] == '*' {
            assert(p.contains('*'));
        }
    }
    lemma_exact_pattern_at(p, t, 0, 0);
    assert(p.subrange(0, p.len() as int) =~= p);
    assert(t.subrange(0, t.len() as int) =~= t);
}

/// Does the identity carry claim `key` with value `value`?
pub open spec fn has_claim(who: Identity, key: Seq<char>, value: Seq<char>) -> bool {
    match who.claims {
        Some(cs) => claims_contain(cs@, key, value),
        None => false,
    }
}

/// Look the claim up in the identity's claim list.
pub fn identity_has_claim(who: &Identity, key: &String, value: &String) -> (r: bool)
    ensures
        r == has_claim(*who, key@, value@),
{
    match &who.claims {
        None => false,
        Some(cs) => {
            let n: usize = cs.len();
            let mut i: usize = 0;
            loop
                invariant
                    0 <= i <= n,
                    n == cs@.len(),
                    who.claims matches Some(v) && v == *cs,
                    forall|j: int| 0 <= j < i ==> !(cs@[j].0@ == key@ && cs@[j].1@ == value@),
                decreases n - i,
            {
                if i == n {
                    proof {
                        assert(!claims_contain(cs@, key@, value@)) by {
                            if claims_contain(cs@, key@, value@) {
                                let w = choose|j: int|
                                    0 <= j < cs@.len() && cs@[j].0@ == key@ && cs@[j].1@
                                        == value@;
                                assert(!(cs@[w].0@ == key@ && cs@[w].1@ == value@));
                            }
                        }
                    }
                    return false;
                }
                let pair = &cs[i];
                if pair.0.eq(key) && pair.1.eq(value) {
                    return true;
                }
                i = i + 1;
            }
        },
    }
}

/// What a rule may constrain; `None` fields are wildcards.
#[derive(Clone, Debug)]
pub struct RuleMatcher {
    pub kind: Option<ResourceKind>,
    pub id_pattern: Option<String>,
    pub claim: Option<(String, String)>,
    pub peer: Option<String>,
}

/// A rule's verdict when it matches.
#[derive(Clone, Copy, Debug, PartialEq, Eq, Structural)]
pub enum Decision {
    Allow,
    Deny,
}

/// One policy rule: a matcher and the decision it imposes.
#[derive(Clone, Debug)]
pub struct PolicyRule {
    pub matcher: RuleMatcher,
    pub decision: Decision,
}

/// Does the matcher accept a resource of kind `kind` with identifier `id`,
/// accessed by `who`?
pub open spec fn matcher_matches(m: RuleMatcher, kind: ResourceKind, id: Seq<char>, who: Identity) -> bool {
    &&& match m.kind {
        Some(k) => k == kind,
        None => true,
    }
    &&& match m.id_pattern {
        Some(p) => glob_match(p@, id),
        None => true,
    }
    &&& match m.claim {
        Some(kv) => has_claim(who, kv.0@, kv.1@),
        None => true,
    }
    &&& match m.peer {
        Some(p) => who.peer matches Some(q) && q@ == p@,
        None => true,
    }
}

impl RuleMatcher {
    /// Evaluate the matcher.
    pub fn matches(&self, res: &ResourceRef, who: &Identity) -> (r: bool)
        ensures
            r == matcher_matches(*self, res.kind(), res.id_chars(), *who),
    {
        let kind_ok: bool = match &self.kind {
            Some(k) => *k == res.kind_of(),
            None => true,
        };
        let id_ok: bool = match &self.id_pattern {
            Some(p) => glob_match_str(p.as_str(), res.id_str().as_str()),
            None => true,
        };
        let claim_ok: bool = match &self.claim {
            Some(kv) => identity_has_claim(who, &kv.0, &kv.1),
            None => true,
        };
        let peer_ok: bool = match &self.peer {
            Some(p) => match &who.peer {
                Some(q) => q.eq(p),
                None => false,
            },
            None => true,
        };
        kind_ok && id_ok && claim_ok && peer_ok
    }
}

/// First-match evaluation over a rule sequence, deny by default.
pub open spec fn eval_rules(rules: Seq<PolicyRule>, kind: ResourceKind, id: Seq<char>, who: Identity) -> bool
    decreases rules.len(),
{
    if rules.len() == 0 {
        false
    } else if matcher_matches(rules[0].matcher, kind, id, who) {
        rules[0].decision is Allow
    } else {
        eval_rules(rules.subrange(1, rules.len() as int), kind, id, who)
    }
}

/// The policy: an ordered list of rules.
#[derive(Clone, Debug)]
pub struct RuleSet {
    pub rules: Vec<PolicyRule>,
}

impl RuleSet {
    /// The empty policy, under which everything is denied.
    pub fn new() -> (r: RuleSet)
        ensures
            r.rules@.len() == 0,
    {
        RuleSet { rules: Vec::new() }
    }

    /// Is access to `res` allowed for `who`?  Deny by default: with no
    /// matching rule the answer is `false`.
    pub fn validate(&self, res: &ResourceRef, who: &Identity) -> (r: bool)
        ensures
            r == eval_rules(self.rules@, res.kind(), res.id_chars(), *who),
    {
        let n: usize = self.rules.len();
        let mut i: usize = 0;
        proof {
            assert(self.rules@.subrange(0, n as int) =~= self.rules@);
        }
        loop
            invariant
                0 <= i <= n,
                n == self.rules@.len(),
                eval_rules(self.rules@, res.kind(), res.id_chars(), *who) == eval_rules(
                    self.rules@.subrange(i as int, n as int),
                    res.kind(),
                    res.id_chars(),
                    *who,
                ),
            decreases n - i,
        {
            if i == n {
                return false;
            }
            let rule = &self.rules[i];
            let m = rule.matcher.matches(res, who);
            proof {
                assert(self.rules@.subrange(i as int, n as int)[0] == self.rules@[i as int]);
                assert(self.rules@.subrange(i as int, n as int).subrange(
                    1,
                    (n - i) as int,
                ) =~= self.rules@.subrange(i as int + 1, n as int));
            }
            if m {
                return match rule.decision {
                    Decision::Allow => true,
                    Decision::Deny => false,
                };
            }
            i = i + 1;
        }
    }
}

/// Deny by default: under an empty rule set no resource is allowed for any
/// identity.
pub proof fn lemma_deny_by_default(rules: Seq<PolicyRule>, kind: ResourceKind, id: Seq<char>, who: Identity)
    requires
        rules.len() == 0,
    ensures
        !eval_rules(rules, kind, id, who),
{
}

impl Identity {
    /// Combine the two facets into an identity; both absent is anonymous,
    /// which is permitted and carried through.
    pub fn new(claims: Option<Vec<(String, String)>>, peer: Option<String>) -> (r: Identity)
        ensures
            r.claims == claims,
            r.peer == peer,
    {
        Identity { claims, peer }
    }
}

} // verus!
