//! Which plugin names, local names and full names the registry accepts.
//!
//! A full name is `"<plugin>:<local>"`, where neither part is empty nor holds
//! a colon. The plugin name `core` is taken by the host.
use vstd::prelude::*;

verus! {

/// The name under which the host owns its built-in events and endpoints.
pub open spec fn core_name() -> Seq<char> {
    seq!['c', 'o', 'r', 'e']
}

/// A local (event or endpoint) name: not empty and without `:`.
pub open spec fn valid_local_name(s: Seq<char>) -> bool {
    s.len() > 0 && !s.contains(':')
}

/// A plugin name: a valid local name that is not `core`.
pub open spec fn valid_plugin_name(s: Seq<char>) -> bool {
    valid_local_name(s) && s != core_name()
}

/// The full name of `local` under `plugin`.
pub open spec fn full_name_of(plugin: Seq<char>, local: Seq<char>) -> Seq<char> {
    plugin + seq![':'] + local
}

/// `s` matches `^[^:]+:[^:]+$`.
pub open spec fn is_full_name(s: Seq<char>) -> bool {
    exists|p: Seq<char>, l: Seq<char>|
        valid_local_name(p) && valid_local_name(l) && s == #[trigger] full_name_of(p, l)
}

/// Whether `s` holds a colon.
pub fn contains_colon(s: &str) -> (r: bool)
    ensures
        r == s@.contains(':'),
{
    let n = s.unicode_len();
    let mut i: usize = 0;
    while i < n
        invariant
            n == s@.len(),
            i <= n,
            forall|k: int| 0 <= k < i ==> s@[k] != ':',
        decreases n - i,
    {
        if s.get_char(i) == ':' {
            assert(s@[i as int] == ':');
            return true;
        }
        i = i + 1;
    }
    assert(!s@.contains(':')) by {
        if s@.contains(':') {
            let k = choose|k: int| 0 <= k < s@.len() && s@[k] == ':';
            assert(s@[k] != ':');
        }
    }
    false
}

/// Whether `s` is exactly `core`.
pub fn is_core_name(s: &str) -> (r: bool)
    ensures
        r == (s@ == core_name()),
{
    if s.unicode_len() != 4 {
        return false;
    }
    let r = s.get_char(0) == 'c' && s.get_char(1) == 'o' && s.get_char(2) == 'r' && s.get_char(3) == 'e';
    if r {
        assert(s@ =~= core_name());
    }
    r
}

/// Whether `name` may name an event or endpoint inside its plugin.
pub fn is_valid_local_name(name: &str) -> (r: bool)
    ensures
        r == valid_local_name(name@),
{
    name.unicode_len() > 0 && !contains_colon(name)
}

/// Whether `name` may name a plugin.
pub fn is_valid_plugin_name(name: &str) -> (r: bool)
    ensures
        r == valid_plugin_name(name@),
{
    is_valid_local_name(name) && !is_core_name(name)
}

/// The full name `"<plugin>:<local>"`.
pub fn full_name(plugin: &str, local: &str) -> (r: String)
    ensures
        r@ == full_name_of(plugin@, local@),
{
    let mut r = String::from_str(plugin);
    r.append(":");
    r.append(local);
    proof {
        reveal_strlit(":");
    }
    assert(r@ =~= full_name_of(plugin@, local@));
    r
}

/// Two valid parts make a full name, and the parts can be read back from
/// it: the plugin part ends at the only colon.
pub proof fn lemma_full_name_parts(p: Seq<char>, l: Seq<char>)
    requires
        valid_local_name(p),
        valid_local_name(l),
    ensures
        is_full_name(full_name_of(p, l)),
        full_name_of(p, l).subrange(0, p.len() as int) == p,
        full_name_of(p, l)[p.len() as int] == ':',
        full_name_of(p, l).subrange(p.len() as int + 1, full_name_of(p, l).len() as int) == l,
{
    let f = full_name_of(p, l);
    assert(f.subrange(0, p.len() as int) =~= p);
    assert(f.subrange(p.len() as int + 1, f.len() as int) =~= l);
}

/// Full names whose plugin parts differ are different, and so are those
/// whose local parts differ.
pub proof fn lemma_full_name_injective(p1: Seq<char>, l1: Seq<char>, p2: Seq<char>, l2: Seq<char>)
    requires
        valid_local_name(p1),
        valid_local_name(l1),
        valid_local_name(p2),
        valid_local_name(l2),
        full_name_of(p1, l1) == full_name_of(p2, l2),
    ensures
        p1 == p2,
        l1 == l2,
{
    let f = full_name_of(p1, l1);
    if p1.len() < p2.len() {
        assert(f[p1.len() as int] == ':');
        assert(full_name_of(p2, l2)[p1.len() as int] == p2[p1.len() as int]);
        assert(p2.contains(':'));
    } else if p2.len() < p1.len() {
        assert(full_name_of(p2, l2)[p2.len() as int] == ':');
        assert(f[p2.len() as int] == p1[p2.len() as int]);
        assert(p1.contains(':'));
    }
    lemma_full_name_parts(p1, l1);
    lemma_full_name_parts(p2, l2);
}

} // verus!
