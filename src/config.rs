//! The parts of configuration handling that are text rules: splitting a
//! `<plugin>:<key>=<value>` option, the environment variable prefix of a
//! configuration directory, and turning an environment variable into an
//! option.
use vstd::prelude::*;
use crate::error::ServiceError;

verus! {

/// What a `core:config` request asks for.
#[derive(Debug, Clone, Copy, PartialEq, Eq, Structural)]
pub enum ConfigAction {
    /// The requesting plugin's whole table.
    LoadAll,
    /// One value of the requesting plugin's table.
    LoadKey,
    /// Store a value under a key in the requesting plugin's file.
    Save,
    /// Read the configuration again.
    Reload,
}

/// Decides a `core:config` request from its action word and whether a key
/// and a value came with it: an unknown action is InvalidJson, a save
/// without key or value InvalidApi.
pub fn config_action(action: &str, has_key: bool, has_value: bool) -> (r: Result<ConfigAction, ServiceError>)
    ensures
        action@ == seq!['l', 'o', 'a', 'd'] ==> r == Ok::<ConfigAction, ServiceError>(
            if has_key { ConfigAction::LoadKey } else { ConfigAction::LoadAll },
        ),
        action@ == seq!['s', 'a', 'v', 'e'] ==> r == (if has_key && has_value {
            Ok::<ConfigAction, ServiceError>(ConfigAction::Save)
        } else {
            Err(ServiceError::InvalidApi)
        }),
        action@ == seq!['r', 'e', 'l', 'o', 'a', 'd'] ==> r == Ok::<ConfigAction, ServiceError>(ConfigAction::Reload),
        action@ != seq!['l', 'o', 'a', 'd'] && action@ != seq!['s', 'a', 'v', 'e'] && action@ != seq!['r', 'e', 'l', 'o', 'a', 'd']
            ==> r == Err::<ConfigAction, ServiceError>(ServiceError::InvalidJson),
{
    let word = action.to_owned();
    let load = String::from_str("load");
    let save = String::from_str("save");
    let reload = String::from_str("reload");
    proof {
        reveal_strlit("load");
        reveal_strlit("save");
        reveal_strlit("reload");
        assert(load@ =~= seq!['l', 'o', 'a', 'd']);
        assert(save@ =~= seq!['s', 'a', 'v', 'e']);
        assert(reload@ =~= seq!['r', 'e', 'l', 'o', 'a', 'd']);
    }
    if word == load {
        if has_key {
            Ok(ConfigAction::LoadKey)
        } else {
            Ok(ConfigAction::LoadAll)
        }
    } else if word == save {
        if has_key && has_value {
            Ok(ConfigAction::Save)
        } else {
            Err(ServiceError::InvalidApi)
        }
    } else if word == reload {
        Ok(ConfigAction::Reload)
    } else {
        Err(ServiceError::InvalidJson)
    }
}

/// Why a plugin option could not be read.
#[derive(Debug, Clone, Copy, PartialEq, Eq, Structural)]
pub enum CliError {
    /// A value could not be read.
    MalformedValue,
    /// The option has no `<plugin>:` prefix.
    NoPluginPrefix,
    /// The option has no `=<value>`.
    NoValue,
}

/// The position of the first `c` in `s`, if any.
pub open spec fn first_index(s: Seq<char>, c: char) -> Option<int>
    decreases s.len(),
{
    if s.len() == 0 {
        None
    } else {
        match first_index(s.drop_last(), c) {
            Some(i) => Some(i),
            None => if s.last() == c {
                Some(s.len() - 1)
            } else {
                None
            },
        }
    }
}

proof fn lemma_first_index_prefix(s: Seq<char>, c: char, n: int)
    requires
        0 <= n < s.len(),
        forall|k: int| 0 <= k < n ==> s[k] != c,
    ensures
        first_index(s.subrange(0, n + 1), c) == (if s[n] == c { Some(n) } else { None::<int> }),
    decreases n,
{
    assert(s.subrange(0, n + 1).drop_last() =~= s.subrange(0, n));
    if n > 0 {
        lemma_first_index_prefix(s, c, n - 1);
    } else {
        assert(s.subrange(0, 0) =~= Seq::<char>::empty());
    }
}

proof fn lemma_first_index_extend(s: Seq<char>, c: char, n: int)
    requires
        0 <= n <= s.len(),
        first_index(s.subrange(0, n), c) is Some,
    ensures
        first_index(s, c) == first_index(s.subrange(0, n), c),
    decreases s.len() - n,
{
    if n < s.len() {
        assert(s.subrange(0, n + 1).drop_last() =~= s.subrange(0, n));
        lemma_first_index_extend(s, c, n + 1);
    } else {
        assert(s.subrange(0, n) =~= s);
    }
}

proof fn lemma_first_index_none(s: Seq<char>, c: char)
    requires
        forall|k: int| 0 <= k < s.len() ==> s[k] != c,
    ensures
        first_index(s, c) is None,
    decreases s.len(),
{
    if s.len() > 0 {
        lemma_first_index_none(s.drop_last(), c);
    }
}

/// Finds the first `c` in `s`.
pub fn find_char(s: &str, c: char) -> (r: Option<usize>)
    ensures
        r matches Some(i) ==> first_index(s@, c) == Some(i as int),
        r is None ==> first_index(s@, c) is None,
{
    let n = s.unicode_len();
    let mut i: usize = 0;
    while i < n
        invariant
            n == s@.len(),
            i <= n,
            forall|k: int| 0 <= k < i ==> s@[k] != c,
        decreases n - i,
    {
        if s.get_char(i) == c {
            proof {
                lemma_first_index_prefix(s@, c, i as int);
                lemma_first_index_extend(s@, c, i as int + 1);
            }
            return Some(i);
        }
        i = i + 1;
    }
    proof {
        lemma_first_index_none(s@, c);
    }
    None
}

/// `s` split at its first `c`: the part before and the part after.
pub open spec fn split_once_at(s: Seq<char>, c: char) -> Option<(Seq<char>, Seq<char>)> {
    match first_index(s, c) {
        Some(i) => Some((s.subrange(0, i), s.subrange(i + 1, s.len() as int))),
        None => None,
    }
}

/// The plugin, key and raw value of an option `<plugin>:<key>=<value>`:
/// the plugin ends at the first `:`, the key at the first `=` after it.
pub open spec fn plugin_option_parts(s: Seq<char>) -> Result<(Seq<char>, Seq<char>, Seq<char>), CliError> {
    match split_once_at(s, ':') {
        None => Err(CliError::NoPluginPrefix),
        Some((plugin, option)) => match split_once_at(option, '=') {
            None => Err(CliError::NoValue),
            Some((key, value)) => Ok((plugin, key, value)),
        },
    }
}

/// Splits a plugin option into plugin name, key and raw value text.
pub fn split_plugin_option(s: &str) -> (r: Result<(String, String, String), CliError>)
    ensures
        match r {
            Ok((p, k, v)) => plugin_option_parts(s@) == Ok::<(Seq<char>, Seq<char>, Seq<char>), CliError>((p@, k@, v@)),
            Err(e) => plugin_option_parts(s@) == Err::<(Seq<char>, Seq<char>, Seq<char>), CliError>(e),
        },
{
    let colon = match find_char(s, ':') {
        None => return Err(CliError::NoPluginPrefix),
        Some(i) => i,
    };
    proof {
        lemma_first_index_bound(s@, ':');
    }
    let n = s.unicode_len();
    let plugin = s.substring_char(0, colon);
    let option = s.substring_char(colon + 1, n);
    let eq = match find_char(option, '=') {
        None => return Err(CliError::NoValue),
        Some(j) => j,
    };
    proof {
        lemma_first_index_bound(option@, '=');
    }
    let m = option.unicode_len();
    let key = option.substring_char(0, eq);
    let value = option.substring_char(eq + 1, m);
    Ok((plugin.to_owned(), key.to_owned(), value.to_owned()))
}

proof fn lemma_first_index_bound(s: Seq<char>, c: char)
    ensures
        first_index(s, c) matches Some(i) ==> 0 <= i < s.len() && s[i] == c,
    decreases s.len(),
{
    if s.len() > 0 {
        lemma_first_index_bound(s.drop_last(), c);
    }
}

/// The name that convert_case gives `s` in CONSTANT_CASE.
pub uninterp spec fn constant_case_of(s: Seq<char>) -> Seq<char>;

/// Relies on convert_case::Casing::to_case with Case::Constant: the words
/// of the text, upper-cased and joined by `_`.
#[verifier::external_body]
fn constant_case(s: &str) -> (r: String)
    ensures
        r@ == constant_case_of(s@),
{
    convert_case::Casing::to_case(&s, convert_case::Case::Constant)
}

/// The first character of every non-empty `_`-separated word of `s`.
pub open spec fn initials(s: Seq<char>) -> Seq<char>
    decreases s.len(),
{
    if s.len() == 0 {
        Seq::empty()
    } else {
        let rest = initials(s.drop_last());
        let i = s.len() - 1;
        if s[i] != '_' && (i == 0 || s[i - 1] == '_') {
            rest.push(s[i])
        } else {
            rest
        }
    }
}

/// The initials of the `_`-separated words of `s`.
pub fn word_initials(s: &str) -> (r: String)
    ensures
        r@ == initials(s@),
{
    let n = s.unicode_len();
    let mut r = String::new();
    let mut i: usize = 0;
    let mut prev_underscore = true;
    while i < n
        invariant
            n == s@.len(),
            i <= n,
            r@ == initials(s@.subrange(0, i as int)),
            prev_underscore <==> (i == 0 || s@[i - 1] == '_'),
        decreases n - i,
    {
        let c = s.get_char(i);
        assert(s@.subrange(0, i as int + 1).drop_last() =~= s@.subrange(0, i as int));
        if c != '_' && prev_underscore {
            let one = s.substring_char(i, i + 1);
            assert(one@ =~= seq![c]);
            r.append(one);
        }
        prev_underscore = c == '_';
        i = i + 1;
    }
    assert(s@.subrange(0, n as int) =~= s@);
    r
}

/// The prefix of the environment variables that configure the plugins of
/// a host whose configuration directory is named `dir_name`: the initials
/// of the directory name's words in CONSTANT_CASE.
pub fn env_prefix(dir_name: &str) -> (r: String)
    ensures
        r@ == initials(constant_case_of(dir_name@)),
{
    let constant = constant_case(dir_name);
    word_initials(constant.as_str())
}

/// The option an environment variable stands for: a variable named
/// `<prefix><rest>` with value `v` is the option `<rest>=<v>`; any other
/// variable is none.
pub fn env_option(key: &str, value: &str, prefix: &str) -> (r: Option<String>)
    ensures
        r is Some <==> (prefix@.len() <= key@.len() && key@.subrange(0, prefix@.len() as int) == prefix@),
        r matches Some(o) ==> o@ == key@.subrange(prefix@.len() as int, key@.len() as int) + seq!['='] + value@,
{
    let n = key.unicode_len();
    let p = prefix.unicode_len();
    if p > n {
        return None;
    }
    let mut i: usize = 0;
    while i < p
        invariant
            n == key@.len(),
            p == prefix@.len(),
            p <= n,
            i <= p,
            forall|k: int| 0 <= k < i ==> key@[k] == prefix@[k],
        decreases p - i,
    {
        if key.get_char(i) != prefix.get_char(i) {
            assert(key@.subrange(0, p as int)[i as int] != prefix@[i as int]);
            return None;
        }
        i = i + 1;
    }
    assert(key@.subrange(0, p as int) =~= prefix@);
    let mut o = String::from_str(key.substring_char(p, n));
    o.append("=");
    o.append(value);
    proof {
        reveal_strlit("=");
    }
    assert(o@ =~= key@.subrange(p as int, n as int) + seq!['='] + value@);
    Some(o)
}

/// A table's entries, keys viewed as text.
pub open spec fn entries<V>(t: Seq<(String, V)>) -> Seq<(Seq<char>, V)> {
    t.map_values(|e: (String, V)| (e.0@, e.1))
}

/// The value of `key` in `t`: its last entry wins.
pub open spec fn value_of<V>(t: Seq<(Seq<char>, V)>, key: Seq<char>) -> Option<V>
    decreases t.len(),
{
    if t.len() == 0 {
        None
    } else if t.last().0 == key {
        Some(t.last().1)
    } else {
        value_of(t.drop_last(), key)
    }
}

/// No key occurs twice.
pub open spec fn keys_unique<V>(t: Seq<(Seq<char>, V)>) -> bool {
    forall|i: int, j: int| 0 <= i < j < t.len() ==> #[trigger] t[i].0 != #[trigger] t[j].0
}

/// With unique keys, a key's value is the one of its only entry.
proof fn lemma_value_of_unique<V>(t: Seq<(Seq<char>, V)>, key: Seq<char>)
    requires
        keys_unique(t),
    ensures
        forall|i: int| 0 <= i < t.len() && #[trigger] t[i].0 == key ==> value_of(t, key) == Some(t[i].1),
        (forall|i: int| 0 <= i < t.len() ==> #[trigger] t[i].0 != key) ==> value_of(t, key) is None,
    decreases t.len(),
{
    if t.len() > 0 {
        let d = t.drop_last();
        assert(keys_unique(d)) by {
            assert forall|i: int, j: int| 0 <= i < j < d.len() implies #[trigger] d[i].0 != #[trigger] d[j].0 by {
                assert(t[i].0 != t[j].0);
            }
        }
        lemma_value_of_unique(d, key);
        assert forall|i: int| 0 <= i < t.len() && #[trigger] t[i].0 == key implies value_of(t, key) == Some(t[i].1) by {
            if i < t.len() - 1 {
                assert(t[i].0 != t[t.len() - 1].0);
                assert(d[i] == t[i]);
            }
        }
        if forall|i: int| 0 <= i < t.len() ==> #[trigger] t[i].0 != key {
            assert(t[t.len() - 1].0 != key);
            assert forall|i: int| 0 <= i < d.len() implies #[trigger] d[i].0 != key by {
                assert(d[i] == t[i]);
            }
        }
    }
}

/// The position of `key` in `t`, if it is there.
fn find_key<V>(t: &Vec<(String, V)>, key: &String) -> (r: Option<usize>)
    ensures
        r matches Some(i) ==> i < t@.len() && entries(t@)[i as int].0 == key@,
        r is None ==> forall|i: int| 0 <= i < t@.len() ==> #[trigger] entries(t@)[i].0 != key@,
{
    let mut i: usize = 0;
    while i < t.len()
        invariant
            i <= t@.len(),
            forall|j: int| 0 <= j < i ==> #[trigger] entries(t@)[j].0 != key@,
        decreases t@.len() - i,
    {
        if t[i].0 == *key {
            return Some(i);
        }
        i = i + 1;
    }
    None
}

/// Overrides `base` with `over`, entry by entry in order, so that the last
/// entry of a key wins: a key of `over` takes its last value there, any
/// other key keeps its value in `base`. Keys stay unique.
pub fn override_table<V>(base: &mut Vec<(String, V)>, over: Vec<(String, V)>)
    requires
        keys_unique(entries(old(base)@)),
    ensures
        keys_unique(entries(final(base)@)),
        forall|key: Seq<char>| #[trigger] value_of(entries(final(base)@), key) == match value_of(entries(over@), key) {
            Some(v) => Some(v),
            None => value_of(entries(old(base)@), key),
        },
{
    let ghost start = entries(base@);
    let ghost all = entries(over@);
    let mut rest = over;
    let mut j: usize = 0;
    let n = rest.len();
    while j < n
        invariant
            n == all.len(),
            j <= n,
            entries(rest@) == all.subrange(j as int, n as int),
            rest@.len() == n - j,
            keys_unique(entries(base@)),
            forall|key: Seq<char>| #[trigger] value_of(entries(base@), key) == match value_of(all.subrange(0, j as int), key) {
                Some(v) => Some(v),
                None => value_of(start, key),
            },
        decreases n - j,
    {
        let ghost before = entries(base@);
        let ghost r0 = rest@;
        assert(entries(r0)[0] == all[j as int]);
        let (key, value) = rest.remove(0);
        assert(rest@ == r0.remove(0));
        assert(all[j as int] == (key@, value));
        assert(entries(rest@) =~= all.subrange(j as int + 1, n as int)) by {
            assert forall|a: int| 0 <= a < rest@.len() implies entries(rest@)[a] == all.subrange(j as int + 1, n as int)[a] by {
                assert(rest@[a] == r0[a + 1]);
                assert(entries(r0)[a + 1] == all.subrange(j as int, n as int)[a + 1]);
            }
        }
        assert(all.subrange(0, j as int + 1).drop_last() =~= all.subrange(0, j as int));
        proof {
            lemma_value_of_unique(before, key@);
        }
        match find_key(base, &key) {
            Some(i) => {
                base.set(i, (key, value));
                proof {
                    let after = entries(base@);
                    assert(after =~= before.update(i as int, (key@, value)));
                    assert forall|a: int, b: int| 0 <= a < b < after.len() implies #[trigger] after[a].0 != #[trigger] after[b].0 by {
                        assert(before[a].0 != before[b].0);
                    }
                    assert forall|k: Seq<char>| #[trigger] value_of(after, k) == (if k == key@ { Some(value) } else { value_of(before, k) }) by {
                        lemma_value_of_unique(after, k);
                        lemma_value_of_unique(before, k);
                        if k != key@ {
                            if exists|a: int| 0 <= a < before.len() && #[trigger] before[a].0 == k {
                                let a = choose|a: int| 0 <= a < before.len() && #[trigger] before[a].0 == k;
                                assert(after[a] == before[a]);
                            } else {
                                assert forall|a: int| 0 <= a < after.len() implies #[trigger] after[a].0 != k by {
                                    if a != i {
                                        assert(after[a] == before[a]);
                                    }
                                }
                            }
                        } else {
                            assert(after[i as int].0 == k);
                        }
                    }
                }
            },
            None => {
                base.push((key, value));
                proof {
                    let after = entries(base@);
                    assert(after =~= before.push((key@, value)));
                    assert forall|a: int, b: int| 0 <= a < b < after.len() implies #[trigger] after[a].0 != #[trigger] after[b].0 by {
                        if b < before.len() {
                            assert(before[a].0 != before[b].0);
                        } else {
                            assert(after[a] == before[a]);
                        }
                    }
                    assert forall|k: Seq<char>| #[trigger] value_of(after, k) == (if k == key@ { Some(value) } else { value_of(before, k) }) by {
                        assert(after.drop_last() =~= before);
                    }
                }
            },
        }
        j = j + 1;
    }
    assert(all.subrange(0, n as int) =~= all);
}

/// The value that a sequence of plugin tables gives `key` of `plugin`: the
/// last table of the plugin that holds the key decides.
pub open spec fn option_value<V>(tables: Seq<(Seq<char>, Seq<(Seq<char>, V)>)>, plugin: Seq<char>, key: Seq<char>) -> Option<V>
    decreases tables.len(),
{
    if tables.len() == 0 {
        None
    } else if tables.last().0 == plugin && value_of(tables.last().1, key) is Some {
        value_of(tables.last().1, key)
    } else {
        option_value(tables.drop_last(), plugin, key)
    }
}

/// Plugin tables, names and keys viewed as text.
pub open spec fn plugin_tables<V>(t: Seq<(String, Vec<(String, V)>)>) -> Seq<(Seq<char>, Seq<(Seq<char>, V)>)> {
    t.map_values(|e: (String, Vec<(String, V)>)| (e.0@, entries(e.1@)))
}

/// The value of `key` for `plugin` in a configuration.
pub open spec fn config_value<V>(tables: Seq<(Seq<char>, Seq<(Seq<char>, V)>)>, plugin: Seq<char>, key: Seq<char>) -> Option<V> {
    match value_of(tables, plugin) {
        Some(t) => value_of(t, key),
        None => None,
    }
}

/// Every plugin occurs once, and every table has unique keys.
pub open spec fn well_keyed<V>(tables: Seq<(Seq<char>, Seq<(Seq<char>, V)>)>) -> bool {
    &&& keys_unique(tables)
    &&& forall|i: int| 0 <= i < tables.len() ==> keys_unique(#[trigger] tables[i].1)
}

/// Overrides the configuration `base` with the plugin tables `over`, in
/// order: for every plugin and key, the last table of `over` that sets it
/// wins, and otherwise `base` keeps its value.
pub fn merge_configs<V>(base: &mut Vec<(String, Vec<(String, V)>)>, over: Vec<(String, Vec<(String, V)>)>)
    requires
        well_keyed(plugin_tables(old(base)@)),
    ensures
        well_keyed(plugin_tables(final(base)@)),
        forall|plugin: Seq<char>, key: Seq<char>|
            #[trigger] config_value(plugin_tables(final(base)@), plugin, key) == match option_value(plugin_tables(over@), plugin, key) {
                Some(v) => Some(v),
                None => config_value(plugin_tables(old(base)@), plugin, key),
            },
{
    let ghost start = plugin_tables(base@);
    let ghost all = plugin_tables(over@);
    let mut rest = over;
    let mut j: usize = 0;
    let n = rest.len();
    while j < n
        invariant
            n == all.len(),
            j <= n,
            plugin_tables(rest@) == all.subrange(j as int, n as int),
            rest@.len() == n - j,
            well_keyed(plugin_tables(base@)),
            forall|plugin: Seq<char>, key: Seq<char>|
                #[trigger] config_value(plugin_tables(base@), plugin, key) == match option_value(all.subrange(0, j as int), plugin, key) {
                    Some(v) => Some(v),
                    None => config_value(start, plugin, key),
                },
        decreases n - j,
    {
        let ghost before = plugin_tables(base@);
        let ghost r0 = rest@;
        assert(plugin_tables(r0)[0] == all[j as int]);
        let (name, table) = rest.remove(0);
        assert(rest@ == r0.remove(0));
        assert(plugin_tables(rest@) =~= all.subrange(j as int + 1, n as int)) by {
            assert forall|a: int| 0 <= a < rest@.len() implies plugin_tables(rest@)[a] == all.subrange(j as int + 1, n as int)[a] by {
                assert(rest@[a] == r0[a + 1]);
                assert(plugin_tables(r0)[a + 1] == all.subrange(j as int, n as int)[a + 1]);
            }
        }
        assert(all.subrange(0, j as int + 1).drop_last() =~= all.subrange(0, j as int));
        let ghost over_t = entries(table@);
        assert(all[j as int] == (name@, over_t));
        proof {
            lemma_value_of_unique(before, name@);
        }
        let ghost old_t: Seq<(Seq<char>, V)> = match value_of(before, name@) {
            Some(t) => t,
            None => Seq::empty(),
        };
        assert forall|x: int| 0 <= x < base@.len() implies #[trigger] entries(base@)[x].0 == before[x].0 by {}
        let ghost new_t: Seq<(Seq<char>, V)>;
        match find_key(base, &name) {
            Some(i) => {
                assert(before[i as int].0 == name@);
                let (pname, mut tbl) = base.remove(i);
                assert(entries(tbl@) == before[i as int].1);
                override_table(&mut tbl, table);
                proof {
                    new_t = entries(tbl@);
                }
                base.insert(i, (pname, tbl));
                proof {
                    let after = plugin_tables(base@);
                    assert(after =~= before.update(i as int, (name@, new_t)));
                    assert(well_keyed(after)) by {
                        assert forall|a: int, b: int| 0 <= a < b < after.len() implies #[trigger] after[a].0 != #[trigger] after[b].0 by {
                            assert(before[a].0 != before[b].0);
                        }
                        assert forall|a: int| 0 <= a < after.len() implies keys_unique(#[trigger] after[a].1) by {
                            if a != i {
                                assert(after[a] == before[a]);
                            }
                        }
                    }
                    lemma_replace_table(before, i as int, name@, new_t);
                    assert forall|p: Seq<char>| p != name@ implies #[trigger] value_of(after, p) == value_of(before, p) by {
                        lemma_value_of_unique(after, p);
                        lemma_value_of_unique(before, p);
                        if exists|a: int| 0 <= a < before.len() && #[trigger] before[a].0 == p {
                            let a = choose|a: int| 0 <= a < before.len() && #[trigger] before[a].0 == p;
                            assert(a != i);
                            assert(after[a] == before[a]);
                        } else {
                            assert forall|a: int| 0 <= a < after.len() implies #[trigger] after[a].0 != p by {
                                if a != i {
                                    assert(after[a] == before[a]);
                                }
                            }
                        }
                    }
                    assert(value_of(before, name@) == Some(before[i as int].1));
                }
            },
            None => {
                let mut tbl: Vec<(String, V)> = Vec::new();
                assert(entries(tbl@) =~= Seq::<(Seq<char>, V)>::empty());
                assert(keys_unique(entries(tbl@)));
                override_table(&mut tbl, table);
                proof {
                    new_t = entries(tbl@);
                }
                assert forall|k: Seq<char>| #[trigger] value_of(new_t, k) == value_of(over_t, k) by {
                    assert(value_of(Seq::<(Seq<char>, V)>::empty(), k) is None);
                }
                assert forall|x: int| 0 <= x < before.len() implies #[trigger] before[x].0 != name@ by {
                    assert(entries(base@)[x].0 == before[x].0);
                }
                assert(value_of(before, name@) is None);
                base.push((name, tbl));
                proof {
                    let after = plugin_tables(base@);
                    assert(after =~= before.push((name@, new_t)));
                    assert(after.drop_last() =~= before);
                    assert(well_keyed(after)) by {
                        assert forall|a: int, b: int| 0 <= a < b < after.len() implies #[trigger] after[a].0 != #[trigger] after[b].0 by {
                            if b < before.len() {
                                assert(before[a].0 != before[b].0);
                            } else {
                                assert(after[a] == before[a]);
                            }
                        }
                        assert forall|a: int| 0 <= a < after.len() implies keys_unique(#[trigger] after[a].1) by {
                            if a < before.len() {
                                assert(after[a] == before[a]);
                            }
                        }
                    }
                    assert(value_of(after, name@) == Some(new_t));
                    assert forall|p: Seq<char>| p != name@ implies #[trigger] value_of(after, p) == value_of(before, p) by {}
                }
            },
        }
        proof {
            let after = plugin_tables(base@);
            assert forall|plugin: Seq<char>, key: Seq<char>|
                #[trigger] config_value(after, plugin, key) == match option_value(all.subrange(0, j as int + 1), plugin, key) {
                    Some(v) => Some(v),
                    None => config_value(start, plugin, key),
                } by {
                assert(all.subrange(0, j as int + 1).last() == (name@, over_t));
                assert(option_value(all.subrange(0, j as int + 1), plugin, key) == (if name@ == plugin && value_of(over_t, key) is Some {
                    value_of(over_t, key)
                } else {
                    option_value(all.subrange(0, j as int), plugin, key)
                }));
                assert(config_value(before, plugin, key) == match option_value(all.subrange(0, j as int), plugin, key) {
                    Some(v) => Some(v),
                    None => config_value(start, plugin, key),
                });
                if plugin != name@ {
                    assert(value_of(after, plugin) == value_of(before, plugin));
                } else {
                    assert(value_of(after, name@) == Some(new_t));
                    assert(value_of(new_t, key) == match value_of(over_t, key) {
                        Some(v) => Some(v),
                        None => value_of(old_t, key),
                    });
                    if value_of(before, name@) is None {
                        assert(value_of(old_t, key) is None);
                    }
                }
            }
        }
        j = j + 1;
    }
    assert(all.subrange(0, n as int) =~= all);
}

/// Replacing the table of a plugin changes that plugin's values only.
proof fn lemma_replace_table<V>(before: Seq<(Seq<char>, Seq<(Seq<char>, V)>)>, i: int, name: Seq<char>, t: Seq<(Seq<char>, V)>)
    requires
        well_keyed(before),
        0 <= i < before.len(),
        before[i].0 == name,
        keys_unique(t),
    ensures
        value_of(before.update(i, (name, t)), name) == Some(t),
{
    let after = before.update(i, (name, t));
    assert(after.len() == before.len());
    assert forall|x: int| 0 <= x < after.len() implies #[trigger] after[x].0 == before[x].0 by {}
    assert forall|a: int, b: int| 0 <= a < b < after.len() implies #[trigger] after[a].0 != #[trigger] after[b].0 by {
        assert(after[a].0 == before[a].0);
        assert(after[b].0 == before[b].0);
        assert(before[a].0 != before[b].0);
    }
    assert(keys_unique(after));
    lemma_value_of_unique(after, name);
    assert(after[i] == (name, t));
    assert(after[i].0 == name);
}

/// The value that a list of options gives `key` of `plugin`: the last
/// option for both wins.
pub open spec fn options_value<V>(options: Seq<(Seq<char>, Seq<char>, V)>, plugin: Seq<char>, key: Seq<char>) -> Option<V>
    decreases options.len(),
{
    if options.len() == 0 {
        None
    } else if options.last().0 == plugin && options.last().1 == key {
        Some(options.last().2)
    } else {
        options_value(options.drop_last(), plugin, key)
    }
}

/// Options, names and keys viewed as text.
pub open spec fn option_entries<V>(options: Seq<(String, String, V)>) -> Seq<(Seq<char>, Seq<char>, V)> {
    options.map_values(|o: (String, String, V)| (o.0@, o.1@, o.2))
}

/// Collects `<plugin>:<key>=<value>` options into plugin tables; when a
/// plugin and key occur more than once, the last option wins.
pub fn join_options<V>(options: Vec<(String, String, V)>) -> (r: Vec<(String, Vec<(String, V)>)>)
    ensures
        well_keyed(plugin_tables(r@)),
        forall|plugin: Seq<char>, key: Seq<char>|
            #[trigger] config_value(plugin_tables(r@), plugin, key) == options_value(option_entries(options@), plugin, key),
{
    let ghost opts = option_entries(options@);
    let mut singles: Vec<(String, Vec<(String, V)>)> = Vec::new();
    let mut rest = options;
    let n = rest.len();
    let mut j: usize = 0;
    while j < n
        invariant
            n == opts.len(),
            j <= n,
            option_entries(rest@) == opts.subrange(j as int, n as int),
            rest@.len() == n - j,
            forall|plugin: Seq<char>, key: Seq<char>|
                #[trigger] option_value(plugin_tables(singles@), plugin, key) == options_value(opts.subrange(0, j as int), plugin, key),
            plugin_tables(singles@).len() == j,
        decreases n - j,
    {
        let ghost r0 = rest@;
        let ghost before = plugin_tables(singles@);
        assert(option_entries(r0)[0] == opts[j as int]);
        let (plugin, key, value) = rest.remove(0);
        assert(rest@ == r0.remove(0));
        assert(option_entries(rest@) =~= opts.subrange(j as int + 1, n as int)) by {
            assert forall|a: int| 0 <= a < rest@.len() implies option_entries(rest@)[a] == opts.subrange(j as int + 1, n as int)[a] by {
                assert(rest@[a] == r0[a + 1]);
                assert(option_entries(r0)[a + 1] == opts.subrange(j as int, n as int)[a + 1]);
            }
        }
        let ghost entry = (plugin@, key@, value);
        assert(opts[j as int] == entry);
        let mut table: Vec<(String, V)> = Vec::new();
        table.push((key, value));
        let ghost t = entries(table@);
        assert(t =~= seq![(entry.1, entry.2)]);
        singles.push((plugin, table));
        proof {
            let after = plugin_tables(singles@);
            assert(after =~= before.push((entry.0, t)));
            assert(after.drop_last() =~= before);
            assert(opts.subrange(0, j as int + 1).drop_last() =~= opts.subrange(0, j as int));
            assert(t.drop_last() =~= Seq::<(Seq<char>, V)>::empty());
            assert(t.last() == (entry.1, entry.2));
            assert(opts.subrange(0, j as int + 1).last() == entry);
            assert(after.last() == (entry.0, t));
            assert forall|p: Seq<char>, k: Seq<char>|
                #[trigger] option_value(after, p, k) == options_value(opts.subrange(0, j as int + 1), p, k) by {
                assert(option_value(after, p, k) == (if entry.0 == p && value_of(t, k) is Some {
                    value_of(t, k)
                } else {
                    option_value(before, p, k)
                }));
                assert(options_value(opts.subrange(0, j as int + 1), p, k) == (if entry.0 == p && entry.1 == k {
                    Some(entry.2)
                } else {
                    options_value(opts.subrange(0, j as int), p, k)
                }));
                assert(value_of(t.drop_last(), k) is None);
                if k == entry.1 {
                    assert(value_of(t, k) == Some(entry.2));
                } else {
                    assert(value_of(t, k) is None);
                }
            }
        }
        j = j + 1;
    }
    assert(opts.subrange(0, n as int) =~= opts);
    let mut r: Vec<(String, Vec<(String, V)>)> = Vec::new();
    assert(plugin_tables(r@) =~= Seq::<(Seq<char>, Seq<(Seq<char>, V)>)>::empty());
    merge_configs(&mut r, singles);
    r
}

/// Where the host keeps its configuration: a directory path as given on
/// start.
pub struct Launcher {
    config_path: String,
}

impl Launcher {
    pub closed spec fn spec_config_path(&self) -> Seq<char> {
        self.config_path@
    }

    /// A launcher for the configuration directory `config_path`.
    pub fn new(config_path: &str) -> (r: Launcher)
        ensures
            r.spec_config_path() == config_path@,
    {
        Launcher { config_path: String::from_str(config_path) }
    }

    /// The configuration directory.
    pub fn config_path(&self) -> (r: &str)
        ensures
            r@ == self.spec_config_path(),
    {
        self.config_path.as_str()
    }
}

} // verus!
