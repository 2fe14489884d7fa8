//! The `target:item` namespacing scheme.
//!
//! Every tool or prompt the gateway exposes downstream is renamed to
//! `target:item`, where `target` is the registered name of the upstream that
//! owns it.  Dispatching splits the downstream identifier on its **first**
//! `:` to recover the pair.

use vstd::prelude::*;

verus! {

/// A name may stand as the prefix of a namespaced identifier only if it is
/// nonempty and carries no separator, so that the split is unambiguous.
pub open spec fn valid_target_name(s: Seq<char>) -> bool {
    s.len() > 0 && !s.contains(':')
}

/// Length of the longest prefix of `s` that carries no `:`.
pub open spec fn sep_free_prefix(s: Seq<char>) -> nat
    decreases s.len(),
{
    if s.len() == 0 {
        0
    } else if s[0] == ':' {
        0
    } else {
        1 + sep_free_prefix(s.subrange(1, s.len() as int))
    }
}

/// Does `s` contain a separator at all?
pub open spec fn has_sep(s: Seq<char>) -> bool {
    sep_free_prefix(s) < s.len()
}

/// The namespaced form `target:item`.
pub open spec fn namespaced(target: Seq<char>, item: Seq<char>) -> Seq<char> {
    target + seq![':'] + item
}

/// What splitting on the first separator yields: the prefix before it and
/// everything after it, or nothing when `s` has no separator.
pub open spec fn split_spec(s: Seq<char>) -> Option<(Seq<char>, Seq<char>)> {
    if has_sep(s) {
        Some(
            (
                s.subrange(0, sep_free_prefix(s) as int),
                s.subrange(sep_free_prefix(s) as int + 1, s.len() as int),
            ),
        )
    } else {
        None
    }
}

/// `sep_free_prefix` is exactly the index of the first separator (or the
/// length, when there is none).
pub proof fn lemma_sep_free_prefix_at(s: Seq<char>, i: int)
    requires
        0 <= i <= s.len(),
        forall|j: int| 0 <= j < i ==> s[j] != ':',
        i == s.len() || s[i] == ':',
    ensures
        sep_free_prefix(s) == i,
    decreases i,
{
    if s.len() == 0 {
    } else if i == 0 {
    } else {
        let t = s.subrange(1, s.len() as int);
        assert forall|j: int| 0 <= j < i - 1 implies t[j] != ':' by {
            assert(t[j] == s[j + 1]);
        }
        if i < s.len() {
            assert(t[i - 1] == s[i]);
        }
        lemma_sep_free_prefix_at(t, i - 1);
    }
}

/// String-slice equality, decided by content.
pub fn str_eq(a: &str, b: &str) -> (r: bool)
    ensures
        r == (a@ == b@),
{
    let x = a.to_owned();
    let y = b.to_owned();
    x.eq(&y)
}

/// Build the namespaced identifier `target:item`.
pub fn join_name(target: &str, item: &str) -> (r: String)
    ensures
        r@ == namespaced(target@, item@),
{
    let mut r = target.to_owned();
    r.append(":");
    r.append(item);
    proof {
        reveal_strlit(":");
        assert(":"@ =~= seq![':']);
        assert(r@ =~= namespaced(target@, item@));
    }
    r
}

/// Split a namespaced identifier on its first `:`.  Returns the target name
/// and the upstream-local item name, or `None` when the identifier carries no
/// separator and must be rejected.
pub fn split_name(s: &str) -> (r: Option<(String, String)>)
    ensures
        match r {
            Some(p) => split_spec(s@) == Some((p.0@, p.1@)),
            None => split_spec(s@) is None,
        },
{
    let n: usize = s.unicode_len();
    let mut i: usize = 0;
    loop
        invariant
            0 <= i <= n,
            n == s@.len(),
            forall|j: int| 0 <= j < i ==> s@[j] != ':',
        decreases n - i,
    {
        if i == n {
            proof {
                lemma_sep_free_prefix_at(s@, i as int);
            }
            return None;
        }
        let c = s.get_char(i);
        if c == ':' {
            proof {
                lemma_sep_free_prefix_at(s@, i as int);
            }
            let target = s.substring_char(0, i).to_owned();
            let item = s.substring_char(i + 1, n).to_owned();
            return Some((target, item));
        }
        i = i + 1;
    }
}

/// `sep_free_prefix` really is the separator-free prefix: nothing before it
/// is a separator, and the character at it (when inside the string) is one.
pub proof fn lemma_sep_free_prefix_props(s: Seq<char>)
    ensures
        sep_free_prefix(s) <= s.len(),
        forall|j: int| 0 <= j < sep_free_prefix(s) ==> s[j] != ':',
        sep_free_prefix(s) < s.len() ==> s[sep_free_prefix(s) as int] == ':',
    decreases s.len(),
{
    if s.len() > 0 && s[0] != ':' {
        let t = s.subrange(1, s.len() as int);
        lemma_sep_free_prefix_props(t);
        assert forall|j: int| 0 <= j < sep_free_prefix(s) implies s[j] != ':' by {
            if j > 0 {
                assert(t[j - 1] != ':');
            }
        }
    }
}

/// Having a separator is the same as containing one.
pub proof fn lemma_has_sep_contains(s: Seq<char>)
    ensures
        has_sep(s) <==> s.contains(':'),
{
    lemma_sep_free_prefix_props(s);
    if has_sep(s) {
        assert(s[sep_free_prefix(s) as int] == ':');
        assert(s.contains(':'));
    }
    if s.contains(':') {
        let i = choose|i: int| 0 <= i < s.len() && s[i] == ':';
        if !has_sep(s) {
            assert(s[i] != ':');
        }
    }
}

/// Can `s` stand as a namespace prefix?  Exactly when it is nonempty and
/// carries no separator.
pub fn valid_target_name_str(s: &str) -> (r: bool)
    ensures
        r == valid_target_name(s@),
{
    proof {
        lemma_has_sep_contains(s@);
    }
    if s.is_empty() {
        return false;
    }
    match split_name(s) {
        None => true,
        Some(_) => false,
    }
}

/// Namespacing round-trip: splitting `target:item` restores the pair exactly,
/// for every item name, provided the target name is valid as a prefix.
pub proof fn lemma_namespacing_round_trip(target: Seq<char>, item: Seq<char>)
    requires
        valid_target_name(target),
    ensures
        split_spec(namespaced(target, item)) == Some((target, item)),
{
    let s = namespaced(target, item);
    assert forall|j: int| 0 <= j < target.len() implies s[j] != ':' by {
        assert(s[j] == target[j]);
        if target[j] == ':' {
            assert(target.contains(':'));
        }
    }
    assert(s[target.len() as int] == ':');
    lemma_sep_free_prefix_at(s, target.len() as int);
    assert(s.subrange(0, target.len() as int) =~= target);
    assert(s.subrange(target.len() as int + 1, s.len() as int) =~= item);
}

/// Namespace purity: a downstream-visible identifier has a nonempty,
/// separator-free prefix, one separator, and a nonempty suffix.
pub open spec fn pure_namespaced_id(s: Seq<char>) -> bool {
    &&& has_sep(s)
    &&& sep_free_prefix(s) > 0
    &&& sep_free_prefix(s) + 1 < s.len()
    &&& !s.subrange(sep_free_prefix(s) as int + 1, s.len() as int).contains(':')
}

/// Emitting `target:item` for a valid target name and a separator-free,
/// nonempty item name always yields a pure namespaced identifier.
pub proof fn lemma_namespace_purity(target: Seq<char>, item: Seq<char>)
    requires
        valid_target_name(target),
        valid_target_name(item),
    ensures
        pure_namespaced_id(namespaced(target, item)),
{
    lemma_namespacing_round_trip(target, item);
    let s = namespaced(target, item);
    assert(s.subrange(sep_free_prefix(s) as int + 1, s.len() as int) =~= item);
}

} // verus!
